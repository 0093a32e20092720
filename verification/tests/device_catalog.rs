use j2me_kit::device::{
    ConnectorFragment, DeviceCatalog, DisplayFragment, FocusGainPolicy, FocusLossPolicy, FontFragment,
    HandsetKey, HapticsFragment, InputFragment, LifecycleFragment, MediaFragment, ProfileRefs, RmsFragment,
    SystemFragment,
};
use j2me_kit::me::canvas::Canvas;

fn s(text: &str) -> String {
    text.to_string()
}

fn refs(id: &str, display: &str) -> ProfileRefs {
    ProfileRefs {
        id: s(id),
        display: s(display),
        input: s("keys"),
        media: s("midi"),
        haptics: s("yes"),
        rms: s("small"),
        connector: s("online"),
        system: s("fixture"),
        font: s("oracle"),
        lifecycle: s("standard"),
    }
}

fn keys() -> InputFragment {
    InputFragment {
        up: -1,
        down: -2,
        left: -3,
        right: -4,
        fire: -5,
        soft_left: -6,
        soft_right: -7,
        star: 42,
        pound: 35,
        digits: [48, 49, 50, 51, 52, 53, 54, 55, 56, 57],
        game_action_up: vec![-1, 50],
        game_action_down: vec![-2, 56],
        game_action_left: vec![-3, 52],
        game_action_right: vec![-4, 54],
        game_action_fire: vec![-5, 53],
        pointer_events: false,
        pointer_motion_events: false,
        repeat_events: false,
    }
}

fn system(charset: &str, properties: Vec<(String, String)>) -> SystemFragment {
    SystemFragment { default_charset: s(charset), properties }
}

fn fixture_properties() -> Vec<(String, String)> {
    vec![(s("microedition.platform"), s("FixturePhone")), (s("wireless.messaging.sms.smsc"), s("+123"))]
}

/// The catalog of the fixture file: two displays, one of everything else,
/// and two profiles that differ only in their display.
fn catalog(schema: u32, system_fragment: SystemFragment, profiles: Vec<ProfileRefs>) -> DeviceCatalog {
    DeviceCatalog::from_tables(
        schema,
        vec![
            (s("large"), DisplayFragment { width: 240, height: 320, fullscreen_width: None, fullscreen_height: None }),
            (s("small"), DisplayFragment { width: 128, height: 160, fullscreen_width: None, fullscreen_height: None }),
        ],
        vec![(s("keys"), keys())],
        vec![(
            s("midi"),
            MediaFragment {
                content_types: vec![s("audio/midi")],
                mime_aliases: vec![],
                controls: vec![s("VolumeControl")],
                midi_renderer: s("device"),
            },
        )],
        vec![(s("yes"), HapticsFragment { vibration: true })],
        vec![(s("small"), RmsFragment { capacity_bytes: Some(32768) })],
        vec![(s("online"), ConnectorFragment { schemes: vec![s("http"), s("https"), s("sms")] })],
        vec![(s("fixture"), system_fragment)],
        vec![(s("oracle"), FontFragment { provider: s("fixture-font-v1") })],
        vec![(
            s("standard"),
            LifecycleFragment {
                focus_loss: FocusLossPolicy::PauseThenHide,
                focus_gain: FocusGainPolicy::ShowThenStart,
                platform_request: false,
                platform_request_requires_exit: false,
            },
        )],
        profiles,
    )
    .unwrap()
}

fn fixture() -> DeviceCatalog {
    catalog(
        1,
        system("ISO-8859-1", fixture_properties()),
        vec![refs("small-midi", "small"), refs("large-midi", "large")],
    )
}

#[test]
fn profiles_compose_independent_fragments() {
    let catalog = fixture();
    assert!(catalog.validate().is_ok());
    let small = catalog.resolve("small-midi").unwrap();
    let large = catalog.resolve("large-midi").unwrap();
    assert_eq!(small.display.canvas_size(false), (128, 160));
    assert_eq!(large.display.canvas_size(false), (240, 320));
    assert_eq!(small.input.key_code(HandsetKey::Digit(5)), Some(53));
    assert_eq!(small.input.game_action(50), 1);
    assert!(small.media.supports_mime("audio/midi"));
    assert!(small.media.has_control("VolumeControl"));
    assert!(small.connector.supports("http"));
    assert!(small.connector.supports("sms"));
    assert_eq!(small.system.default_charset, "ISO-8859-1");
    assert_eq!(small.system.property("wireless.messaging.sms.smsc"), Some("+123"));
    assert_eq!(small.media, large.media);
}

#[test]
fn missing_fragments_and_unknown_schema_fail() {
    let wrong_schema = catalog(2, system("ISO-8859-1", fixture_properties()), vec![]);
    assert_eq!(
        wrong_schema.validate().unwrap_err().0,
        "unsupported device profile schema 2, expected 1"
    );
    let mut missing = refs("x", "missing");
    missing.input = s("x");
    let dangling = catalog(1, system("ISO-8859-1", fixture_properties()), vec![missing]);
    assert_eq!(
        dangling.validate().unwrap_err().0,
        "device profile \"x\" references missing display fragment \"missing\""
    );
}

#[test]
fn invalid_system_defaults_fail() {
    let empty_charset = catalog(1, system("  ", fixture_properties()), vec![refs("small-midi", "small")]);
    assert_eq!(
        empty_charset.validate().unwrap_err().0,
        "system fragment \"fixture\" has an empty default_charset"
    );
    let mut properties = vec![(s(""), s("bad"))];
    properties.extend(fixture_properties());
    let empty_property = catalog(1, system("ISO-8859-1", properties), vec![refs("small-midi", "small")]);
    assert_eq!(
        empty_property.validate().unwrap_err().0,
        "system fragment \"fixture\" has an empty property name"
    );
}

#[test]
fn duplicate_and_unknown_profiles_are_refused() {
    let dup = catalog(
        1,
        system("ISO-8859-1", fixture_properties()),
        vec![refs("a", "small"), refs("a", "large")],
    );
    assert_eq!(dup.validate().unwrap_err().0, "device profile id \"a\" is empty or duplicated");
    let catalog = fixture();
    assert_eq!(catalog.profile_ids(), vec![s("small-midi"), s("large-midi")]);
    assert_eq!(catalog.resolve("nope").unwrap_err().0, "unknown device profile \"nope\"");
}

#[test]
fn tables_out_of_key_order_are_refused() {
    let display = DisplayFragment { width: 1, height: 1, fullscreen_width: None, fullscreen_height: None };
    let out_of_order = DeviceCatalog::from_tables(
        1,
        vec![(s("small"), display), (s("large"), display)],
        vec![],
        vec![],
        vec![],
        vec![],
        vec![],
        vec![],
        vec![],
        vec![],
        vec![],
    );
    assert!(out_of_order.is_none());
}

#[test]
fn bad_dimensions_renderers_and_schemes_are_refused() {
    let zero = DisplayFragment { width: 0, height: 1, fullscreen_width: None, fullscreen_height: None };
    let c = DeviceCatalog::from_tables(
        1,
        vec![(s("z"), zero)],
        vec![],
        vec![],
        vec![],
        vec![],
        vec![(s("c"), ConnectorFragment { schemes: vec![s("HTTP")] })],
        vec![],
        vec![],
        vec![],
        vec![],
    )
    .unwrap();
    assert_eq!(c.validate().unwrap_err().0, "display fragment \"z\" has an invalid Java canvas dimension");
    let c = DeviceCatalog::from_tables(
        1,
        vec![],
        vec![],
        vec![],
        vec![],
        vec![],
        vec![(s("c"), ConnectorFragment { schemes: vec![s("http"), s("HTTP")] })],
        vec![],
        vec![],
        vec![],
        vec![],
    )
    .unwrap();
    assert_eq!(c.validate().unwrap_err().0, "connector fragment \"c\" has invalid lowercase URI scheme \"HTTP\"");
}

#[test]
fn canvas_for_profile_takes_display_and_callbacks() {
    let catalog = fixture();
    let mut small = catalog.resolve("small-midi").unwrap();
    small.input.pointer_events = true;
    let canvas = Canvas::for_profile(&small, false);
    assert_eq!(canvas.width(), 128);
    assert_eq!(canvas.height(), 160);
    assert!(canvas.has_pointer_events());
}
