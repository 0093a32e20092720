use j2me_kit::browser::{handset_key, raw_code};
use j2me_kit::device::HandsetKey;
use j2me_kit::device_nokia::input_fragment;
use j2me_kit::input::config::{parse, KeyBinding, KeymapConfig};
use j2me_kit::input::keymap::Keymap;
use j2me_kit::input::nokia::{
    digit, is_vocabulary, Action, DOWN, FIRE, LEFT, POUND, RIGHT, SOFT_LEFT, SOFT_RIGHT, STAR, UP,
};
use j2me_kit::input::preset::{key_from_name, Preset};
use j2me_kit::input::KeyCode as K;

// ---------------------------------------------------------------- nokia

#[test]
fn digit_helper_maps_ascii_and_rejects_overflow() {
    assert_eq!(digit(0), Some(48));
    assert_eq!(digit(9), Some(57));
    assert_eq!(digit(10), None);
}

#[test]
fn vocabulary_admits_exactly_the_nokia_set() {
    for c in [UP, DOWN, LEFT, RIGHT, FIRE, SOFT_LEFT, SOFT_RIGHT, STAR, POUND] {
        assert!(is_vocabulary(c), "{c} should be in vocabulary");
    }
    for c in 48..=57 {
        assert!(is_vocabulary(c));
    }
    for c in [-8, 0, 1, 8, 47, 58, 34, 36, 41, 43, 999] {
        assert!(!is_vocabulary(c), "{c} should NOT be in vocabulary");
    }
}

#[test]
fn action_codes_match_the_constants() {
    assert_eq!(Action::Fire.nokia_code(), FIRE);
    assert_eq!(Action::SoftLeft.nokia_code(), SOFT_LEFT);
    assert_eq!(Action::SoftRight.nokia_code(), SOFT_RIGHT);
    assert_eq!(Action::Digit(0).nokia_code(), 48);
    assert_eq!(Action::Digit(7).nokia_code(), 55);
    assert_eq!(Action::Star.nokia_code(), 42);
    assert_eq!(Action::Pound.nokia_code(), 35);
}

#[test]
fn action_names_parse_with_aliases() {
    assert_eq!(Action::from_name("Fire"), Some(Action::Fire));
    assert_eq!(Action::from_name("select"), Some(Action::Fire));
    assert_eq!(Action::from_name("soft_left"), Some(Action::SoftLeft));
    assert_eq!(Action::from_name("SOFTKEY2"), Some(Action::SoftRight));
    assert_eq!(Action::from_name("digit3"), Some(Action::Digit(3)));
    assert_eq!(Action::from_name("7"), Some(Action::Digit(7)));
    assert_eq!(Action::from_name("*"), Some(Action::Star));
    assert_eq!(Action::from_name("#"), Some(Action::Pound));
    assert_eq!(Action::from_name("pound"), Some(Action::Pound));
    assert_eq!(Action::from_name("nonsense"), None);
    assert_eq!(Action::from_name("digit42"), None);
}

// ---------------------------------------------------------------- presets

#[test]
fn standard_maps_arrows_enter_softkeys_and_symbols() {
    let p = Preset::Standard;
    assert_eq!(p.nokia_code(K::ArrowUp), Some(UP));
    assert_eq!(p.nokia_code(K::ArrowDown), Some(DOWN));
    assert_eq!(p.nokia_code(K::ArrowLeft), Some(LEFT));
    assert_eq!(p.nokia_code(K::ArrowRight), Some(RIGHT));
    assert_eq!(p.nokia_code(K::Enter), Some(FIRE));
    assert_eq!(p.nokia_code(K::Space), Some(FIRE));
    assert_eq!(p.nokia_code(K::F1), Some(SOFT_LEFT));
    assert_eq!(p.nokia_code(K::F2), Some(SOFT_RIGHT));
    assert_eq!(p.nokia_code(K::Digit0), Some(48));
    assert_eq!(p.nokia_code(K::Digit9), Some(57));
    assert_eq!(p.nokia_code(K::BracketLeft), Some(STAR));
    assert_eq!(p.nokia_code(K::BracketRight), Some(POUND));
}

#[test]
fn standard_leaves_the_mobile_cluster_unbound() {
    let p = Preset::Standard;
    for k in [K::KeyW, K::KeyA, K::KeyS, K::KeyD, K::KeyQ, K::KeyE, K::KeyX] {
        assert_eq!(p.nokia_code(k), None, "{k:?} must be unbound in Standard");
    }
}

#[test]
fn mobile_covers_move_fire_softkeys_and_symbols() {
    let p = Preset::Mobile;
    assert_eq!(p.nokia_code(K::KeyW), Some(UP));
    assert_eq!(p.nokia_code(K::KeyS), Some(DOWN));
    assert_eq!(p.nokia_code(K::KeyA), Some(LEFT));
    assert_eq!(p.nokia_code(K::KeyD), Some(RIGHT));
    assert_eq!(p.nokia_code(K::KeyX), Some(FIRE));
    assert_eq!(p.nokia_code(K::KeyQ), Some(SOFT_LEFT));
    assert_eq!(p.nokia_code(K::KeyE), Some(SOFT_RIGHT));
    assert_eq!(p.nokia_code(K::KeyR), Some(STAR));
    assert_eq!(p.nokia_code(K::KeyF), Some(POUND));
}

#[test]
fn mobile_is_a_strict_superset_of_standard() {
    for k in [K::ArrowUp, K::Enter, K::Space, K::F1, K::F2, K::Digit5] {
        assert_eq!(Preset::Mobile.nokia_code(k), Preset::Standard.nokia_code(k));
    }
}

#[test]
fn unmapped_key_yields_none_in_both_presets() {
    for p in [Preset::Standard, Preset::Mobile] {
        assert_eq!(p.nokia_code(K::KeyI), None);
        assert_eq!(p.nokia_code(K::Home), None);
    }
}

#[test]
fn preset_names_parse() {
    assert_eq!(Preset::from_name("standard"), Some(Preset::Standard));
    assert_eq!(Preset::from_name("Desktop"), Some(Preset::Standard));
    assert_eq!(Preset::from_name("MOBILE"), Some(Preset::Mobile));
    assert_eq!(Preset::from_name("wasd"), Some(Preset::Mobile));
    assert_eq!(Preset::from_name("xyzzy"), None);
    assert_eq!(Preset::default(), Preset::Mobile);
}

#[test]
fn key_names_parse_variants_and_aliases() {
    assert_eq!(key_from_name("KeyW"), Some(K::KeyW));
    assert_eq!(key_from_name("w"), Some(K::KeyW));
    assert_eq!(key_from_name("W"), Some(K::KeyW));
    assert_eq!(key_from_name("ArrowUp"), Some(K::ArrowUp));
    assert_eq!(key_from_name("up"), Some(K::ArrowUp));
    assert_eq!(key_from_name("arrow_up"), Some(K::ArrowUp));
    assert_eq!(key_from_name("F1"), Some(K::F1));
    assert_eq!(key_from_name("f11"), Some(K::F11));
    assert_eq!(key_from_name("Space"), Some(K::Space));
    assert_eq!(key_from_name("esc"), Some(K::Escape));
    assert_eq!(key_from_name("Digit0"), Some(K::Digit0));
    assert_eq!(key_from_name("0"), Some(K::Digit0));
    assert_eq!(key_from_name("Numpad5"), Some(K::Numpad5));
    assert_eq!(key_from_name("kp5"), Some(K::Numpad5));
    assert_eq!(key_from_name("BracketLeft"), Some(K::BracketLeft));
    assert_eq!(key_from_name("NumpadMultiply"), Some(K::NumpadMultiply));
    assert_eq!(key_from_name("f"), Some(K::KeyF));
    assert_eq!(key_from_name("totally-unknown"), None);
}

// ---------------------------------------------------------------- config

#[test]
fn empty_config_is_empty() {
    let cfg = parse("").unwrap();
    assert_eq!(cfg, KeymapConfig::default());
}

#[test]
fn headerless_document_is_all_keymap() {
    let cfg = parse("preset = \"standard\"\nKeyH = SoftLeft\n").unwrap();
    assert_eq!(cfg.preset, Some(Preset::Standard));
    assert_eq!(cfg.bindings, vec![(K::KeyH, Some(KeyBinding::Handset(HandsetKey::SoftLeft)))]);
    assert_eq!(cfg.lines, vec![2]);
}

#[test]
fn only_the_keymap_section_of_a_game_toml_is_read() {
    let text = "\
slug = \"demo\"

[oracle]
canvas_w = 240

[keymap]
preset = \"mobile\"
KeyJ = -5        # Fire by raw code

[other]
KeyZ = 999       # ignored: not in [keymap]
";
    let cfg = parse(text).unwrap();
    assert_eq!(cfg.preset, Some(Preset::Mobile));
    assert_eq!(cfg.bindings, vec![(K::KeyJ, Some(KeyBinding::Raw(-5)))]);
}

#[test]
fn none_unbinds_and_quoted_symbol_survives_the_comment_scanner() {
    let cfg = parse("[keymap]\nKeyQ = \"none\"\nComma = \"#\"\n").unwrap();
    assert_eq!(
        cfg.bindings,
        vec![(K::KeyQ, None), (K::Comma, Some(KeyBinding::Handset(HandsetKey::Pound)))]
    );
}

#[test]
fn raw_device_code_is_preserved_for_reviewed_profiles() {
    let cfg = parse("[keymap]\nKeyH = 999\n").unwrap();
    assert_eq!(cfg.bindings, vec![(K::KeyH, Some(KeyBinding::Raw(999)))]);
}

#[test]
fn unknown_key_name_and_action_are_config_errors() {
    assert!(parse("[keymap]\nWiggle = Fire\n").unwrap_err().message.contains("unknown key name"));
    assert!(parse("[keymap]\nKeyH = Teleport\n").unwrap_err().message.contains("not an action name"));
}

#[test]
fn malformed_line_reports_its_number() {
    let err = parse("[keymap]\n\nKeyH\n").unwrap_err();
    assert_eq!(err.line, 3);
}

#[test]
fn config_error_messages_quote_the_offending_text() {
    let err = parse("[keymap]\nWiggle = Fire\n").unwrap_err();
    assert_eq!(err.line, 2);
    assert_eq!(err.message, "unknown key name `Wiggle`");
    let err = parse("preset = 'tablet'\n").unwrap_err();
    assert_eq!(err.message, "unknown preset `tablet` (expected `mobile` or `standard`)");
    let err = parse("[KEYMAP]\r\nKeyH = \"Teleport\"\r\n").unwrap_err();
    assert_eq!(err.message, "`Teleport` is not an action name, a Nokia code, or `none`");
    let err = parse("[keymap]\nno equals here # comment\n").unwrap_err();
    assert_eq!(err.message, "expected `key = value`, found `no equals here`");
}

#[test]
fn raw_codes_parse_as_java_ints() {
    let cfg = parse("KeyH = -2147483648\nKeyJ = +7\nKeyK = OFF\n").unwrap();
    assert_eq!(
        cfg.bindings,
        vec![(K::KeyH, Some(KeyBinding::Raw(i32::MIN))), (K::KeyJ, Some(KeyBinding::Raw(7))), (K::KeyK, None)]
    );
    assert!(parse("KeyH = 2147483648\n").is_err());
    assert!(parse("[[keymap]]\nKeyH = 5\n").is_ok());
}

// ---------------------------------------------------------------- keymap

#[test]
fn default_is_the_mobile_preset_with_no_overrides() {
    let km = Keymap::default();
    assert_eq!(km.preset(), Preset::Mobile);
    assert_eq!(km.nokia_code(K::KeyW), Some(UP));
}

#[test]
fn override_wins_over_the_preset() {
    let mut km = Keymap::new(Preset::Mobile);
    assert_eq!(km.nokia_code(K::KeyW), Some(UP));
    km.bind(K::KeyW, FIRE);
    assert_eq!(km.nokia_code(K::KeyW), Some(FIRE));
}

#[test]
fn explicit_unbind_beats_a_preset_binding() {
    let mut km = Keymap::new(Preset::Mobile);
    km.unbind(K::KeyW);
    assert_eq!(km.nokia_code(K::KeyW), None);
}

#[test]
fn unmapped_key_resolves_to_none() {
    let km = Keymap::new(Preset::Standard);
    assert_eq!(km.nokia_code(K::KeyI), None);
}

#[test]
fn from_config_absent_uses_the_default_preset() {
    let km = Keymap::from_config(None, Preset::Standard).unwrap();
    assert_eq!(km.preset(), Preset::Standard);
    assert_eq!(km.nokia_code(K::KeyW), None);
}

#[test]
fn config_preset_overrides_the_default() {
    let km = Keymap::from_config(Some("[keymap]\npreset = \"mobile\"\n"), Preset::Standard).unwrap();
    assert_eq!(km.preset(), Preset::Mobile);
    assert_eq!(km.nokia_code(K::KeyW), Some(UP));
}

#[test]
fn config_bindings_layer_over_the_chosen_preset() {
    let text = "\
[keymap]
preset = \"standard\"
KeyH = SoftLeft   # add a key Standard doesn't have
F1   = none       # drop Standard's left soft key
";
    let km = Keymap::from_config(Some(text), Preset::Mobile).unwrap();
    assert_eq!(km.preset(), Preset::Standard);
    assert_eq!(km.nokia_code(K::KeyH), Some(SOFT_LEFT));
    assert_eq!(km.nokia_code(K::F1), None);
    assert_eq!(km.nokia_code(K::ArrowUp), Some(UP));
}

#[test]
fn from_config_str_defaults_to_mobile() {
    let km = Keymap::from_config_str("[keymap]\nKeyH = Fire\n").unwrap();
    assert_eq!(km.preset(), Preset::Mobile);
    assert_eq!(km.nokia_code(K::KeyH), Some(FIRE));
    assert_eq!(km.nokia_code(K::KeyA), Some(LEFT));
}

#[test]
fn a_bad_config_surfaces_the_error() {
    assert!(Keymap::from_config_str("[keymap]\nBogusKey = Fire\n").is_err());
}

#[test]
fn standard_preset_maps_the_expected_keys() {
    let km = Keymap::new(Preset::Standard);
    assert_eq!(km.nokia_code(K::ArrowUp), Some(UP));
    assert_eq!(km.nokia_code(K::ArrowDown), Some(DOWN));
    assert_eq!(km.nokia_code(K::ArrowLeft), Some(LEFT));
    assert_eq!(km.nokia_code(K::ArrowRight), Some(RIGHT));
    assert_eq!(km.nokia_code(K::Enter), Some(FIRE));
    assert_eq!(km.nokia_code(K::Space), Some(FIRE));
    assert_eq!(km.nokia_code(K::F1), Some(SOFT_LEFT));
    assert_eq!(km.nokia_code(K::F2), Some(SOFT_RIGHT));
    assert_eq!(km.nokia_code(K::Digit3), Some(51));
    assert_eq!(km.nokia_code(K::NumpadMultiply), Some(STAR));
    assert_eq!(km.nokia_code(K::BracketRight), Some(POUND));
    assert_eq!(km.nokia_code(K::KeyW), None);
}

#[test]
fn mobile_preset_covers_move_fire_softkeys_and_digits() {
    let km = Keymap::new(Preset::Mobile);
    assert_eq!(km.nokia_code(K::KeyW), Some(UP));
    assert_eq!(km.nokia_code(K::KeyA), Some(LEFT));
    assert_eq!(km.nokia_code(K::KeyS), Some(DOWN));
    assert_eq!(km.nokia_code(K::KeyD), Some(RIGHT));
    assert_eq!(km.nokia_code(K::KeyX), Some(FIRE));
    assert_eq!(km.nokia_code(K::KeyQ), Some(SOFT_LEFT));
    assert_eq!(km.nokia_code(K::KeyE), Some(SOFT_RIGHT));
    assert_eq!(km.nokia_code(K::KeyR), Some(STAR));
    assert_eq!(km.nokia_code(K::KeyF), Some(POUND));
    assert_eq!(km.nokia_code(K::Digit0), Some(48));
    assert_eq!(km.nokia_code(K::Digit9), Some(57));
}

#[test]
fn a_config_override_wins_over_the_preset() {
    let text = "\
[keymap]
preset = \"standard\"
KeyH = Fire
KeyQ = none
";
    let km = Keymap::from_config(Some(text), Preset::Mobile).unwrap();
    assert_eq!(km.preset(), Preset::Standard);
    assert_eq!(km.nokia_code(K::KeyH), Some(FIRE));
    assert_eq!(km.nokia_code(K::KeyQ), None);
    assert_eq!(km.nokia_code(K::ArrowUp), Some(UP));
}

#[test]
fn an_unmapped_key_yields_none() {
    let km = Keymap::from_config_str("[keymap]\nKeyH = Fire\n").unwrap();
    assert_eq!(km.nokia_code(K::KeyN), None);
}

#[test]
fn an_invalid_config_is_rejected() {
    assert!(Keymap::from_config_str("[keymap]\nWobble = Fire\n").is_err());
    assert!(Keymap::from_config_str("[keymap]\nKeyH = 12345\n").is_err());
}

#[test]
fn an_out_of_vocabulary_raw_code_names_its_line() {
    let err = Keymap::from_config_str("[keymap]\nKeyJ = -5\nKeyH = 12345\n").unwrap_err();
    assert_eq!(err.line, 3);
    assert_eq!(err.message, "raw code `12345` is not in the Nokia key vocabulary");
}

#[test]
fn rebinding_a_key_replaces_its_override() {
    let mut km = Keymap::new(Preset::Standard);
    km.bind(K::KeyW, FIRE).bind(K::KeyW, STAR);
    assert_eq!(km.nokia_code(K::KeyW), Some(STAR));
    km.unbind(K::KeyW);
    assert_eq!(km.nokia_code(K::KeyW), None);
    assert_eq!(km.nokia_code(K::ArrowUp), Some(UP));
}

#[test]
fn raw_code_goes_through_the_device_profile() {
    let profile = input_fragment();
    let mut km = Keymap::new(Preset::Mobile);
    assert_eq!(km.raw_code(K::KeyW, &profile), Some(UP));
    assert_eq!(km.raw_code(K::Digit4, &profile), Some(52));
    km.bind(K::KeyH, 999);
    assert_eq!(km.raw_code(K::KeyH, &profile), Some(999));
    assert_eq!(km.raw_code(K::KeyI, &profile), None);
}

// ---------------------------------------------------------------- browser

#[test]
fn browser_mapping_stops_before_phone_codes() {
    assert_eq!(handset_key("KeyW"), Some(HandsetKey::Up));
    assert_eq!(handset_key("Digit7"), Some(HandsetKey::Digit(7)));
    assert_eq!(handset_key("Escape"), None);
}

#[test]
fn browser_digits_and_numpad_reach_the_profile() {
    let profile = input_fragment();
    assert_eq!(handset_key("Numpad0"), Some(HandsetKey::Digit(0)));
    assert_eq!(handset_key("NumpadEnter"), Some(HandsetKey::Fire));
    assert_eq!(handset_key("DigitX"), None);
    assert_eq!(raw_code("Numpad9", &profile), Some(57));
    assert_eq!(raw_code("KeyF", &profile), Some(POUND));
    assert_eq!(raw_code("Tab", &profile), None);
}
