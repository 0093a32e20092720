use j2me_kit::device::{ConnectorFragment, FocusGainPolicy, FocusLossPolicy, LifecycleFragment, SystemFragment};
use j2me_kit::platform::lifecycle::{focus_actions, FocusLifecycle, LifecycleAction};
use j2me_kit::platform::paths::{application_data_dir_in, slug_from_game_toml, validate_slug};
use j2me_kit::platform::presentation::{argb_to_rgba_cropped, CanvasPlacement, PresentationError, Rect};
use j2me_kit::platform::services::{
    DisabledServices, HttpRequest, HttpResponse, ServiceBackend, ServiceRuntime, SmsRequest,
};
use j2me_kit::platform::system::{SystemEnvironment, SystemOverrides};
use j2me_kit::platform::PlatformError;
use j2me_kit::platform::rms_file::{decode_rms_snapshot, encode_rms_snapshot};
use j2me_kit::me::rms::{RecordStoreSnapshot, RmsRuntime, RmsSnapshot};
use std::path::Path;

#[test]
fn callback_order_is_profile_data_and_duplicates_are_suppressed() {
    let policy = LifecycleFragment {
        focus_loss: FocusLossPolicy::PauseThenHide,
        focus_gain: FocusGainPolicy::ShowThenStart,
        platform_request: false,
        platform_request_requires_exit: false,
    };
    let mut lifecycle = FocusLifecycle::new(policy);
    assert_eq!(lifecycle.changed(false), vec![LifecycleAction::Pause, LifecycleAction::Hide]);
    assert!(lifecycle.changed(false).is_empty());
    assert_eq!(lifecycle.changed(true), vec![LifecycleAction::Show, LifecycleAction::Start]);
}

#[test]
fn focus_policies_without_actions_are_silent() {
    let policy = LifecycleFragment {
        focus_loss: FocusLossPolicy::NoAction,
        focus_gain: FocusGainPolicy::StartThenShow,
        platform_request: false,
        platform_request_requires_exit: false,
    };
    assert!(focus_actions(&policy, false).is_empty());
    assert_eq!(focus_actions(&policy, true), vec![LifecycleAction::Start, LifecycleAction::Show]);
}

#[test]
fn placement_is_integer_centered_or_center_cropped() {
    let scaled = CanvasPlacement::centered(240, 320, 1000, 800).unwrap();
    assert_eq!(scaled.scale, 2);
    assert_eq!(scaled.destination, Rect { x: 260, y: 80, width: 480, height: 640 });
    assert_eq!(scaled.source, Rect { x: 0, y: 0, width: 240, height: 320 });

    let cropped = CanvasPlacement::centered(240, 320, 200, 300).unwrap();
    assert_eq!(cropped.scale, 1);
    assert_eq!(cropped.source, Rect { x: 20, y: 10, width: 200, height: 300 });
    assert_eq!(cropped.destination, Rect { x: 0, y: 0, width: 200, height: 300 });
    assert_eq!(CanvasPlacement::centered(0, 1, 1, 1), Err(PresentationError::ZeroDimension));
}

#[test]
fn argb_crop_converts_channel_order() {
    let rgba = argb_to_rgba_cropped(
        &[0xff010203, 0x80405060, 0x00112233, 0xffffffff],
        2,
        2,
        Rect { x: 1, y: 0, width: 1, height: 2 },
    )
    .unwrap();
    assert_eq!(rgba, vec![0x40, 0x50, 0x60, 0x80, 0xff, 0xff, 0xff, 0xff]);
}

#[test]
fn argb_crop_refuses_bad_buffers_and_crops() {
    assert_eq!(
        argb_to_rgba_cropped(&[1, 2, 3], 2, 2, Rect { x: 0, y: 0, width: 1, height: 1 }),
        Err(PresentationError::PixelCountMismatch { expected: 4, actual: 3 })
    );
    assert_eq!(
        argb_to_rgba_cropped(&[1, 2, 3, 4], 2, 2, Rect { x: 1, y: 1, width: 2, height: 1 }),
        Err(PresentationError::CropOutsideImage)
    );
    assert_eq!(
        argb_to_rgba_cropped(&[1, 2, 3, 4], 2, 2, Rect { x: u32::MAX, y: 0, width: 2, height: 1 }),
        Err(PresentationError::SizeOverflow)
    );
}

fn fixture() -> SystemFragment {
    SystemFragment {
        default_charset: "ISO-8859-1".to_string(),
        properties: vec![
            ("microedition.platform".to_string(), "NokiaFixture".to_string()),
            ("wireless.messaging.sms.smsc".to_string(), "+111".to_string()),
        ],
    }
}

#[test]
fn device_defaults_are_used_without_overrides() {
    let environment = SystemEnvironment::from_device(&fixture());
    assert_eq!(environment.default_charset(), "ISO-8859-1");
    assert_eq!(environment.property("microedition.platform"), Some("NokiaFixture"));
    assert_eq!(environment.property("missing"), None);
}

#[test]
fn session_values_override_or_remove_without_mutating_device_evidence() {
    let device = fixture();
    let mut overrides = SystemOverrides::default();
    overrides.set_default_charset("UTF-8").unwrap();
    overrides.set_property("wireless.messaging.sms.smsc", "+222").unwrap();
    overrides.remove_property("microedition.platform").unwrap();
    let environment = SystemEnvironment::with_overrides(&device, overrides);

    assert_eq!(environment.default_charset(), "UTF-8");
    assert_eq!(environment.property("wireless.messaging.sms.smsc"), Some("+222"));
    assert_eq!(environment.property("microedition.platform"), None);
    assert_eq!(environment.device_defaults().property("wireless.messaging.sms.smsc"), Some("+111"));
}

#[test]
fn empty_override_names_and_charsets_fail() {
    let mut overrides = SystemOverrides::default();
    assert!(overrides.set_default_charset("  ").is_err());
    assert!(overrides.set_property("", "value").is_err());
    assert!(overrides.remove_property("\t").is_err());
    overrides.set_property("b", "1").unwrap();
    overrides.set_property("a", "2").unwrap();
    overrides.set_property("b", "3").unwrap();
    assert_eq!(overrides.property("b"), Some(Some("3")));
    assert_eq!(overrides.property("a"), Some(Some("2")));
    assert_eq!(overrides.property("c"), None);
    overrides.clear_default_charset();
    assert_eq!(overrides.default_charset(), None);
}

#[derive(Debug, Default)]
struct RecordingBackend {
    http: Vec<HttpRequest>,
    sms: Vec<SmsRequest>,
}

impl ServiceBackend for RecordingBackend {
    fn execute_http(&mut self, request: &HttpRequest) -> Result<HttpResponse, PlatformError> {
        self.http.push(request.clone());
        Ok(HttpResponse { status: 200, headers: vec![], body: b"fixture".to_vec() })
    }

    fn send_sms(&mut self, request: &SmsRequest) -> Result<(), PlatformError> {
        self.sms.push(request.clone());
        Ok(())
    }
}

fn capabilities(schemes: &[&str]) -> ConnectorFragment {
    ConnectorFragment { schemes: schemes.iter().map(|scheme| (*scheme).to_owned()).collect() }
}

#[test]
fn profile_and_host_permission_are_independent_gates() {
    let request = HttpRequest::new("http://example.invalid/scores", "POST");
    let mut unsupported = ServiceRuntime::new(capabilities(&[]), RecordingBackend::default());
    assert!(unsupported.execute_http(&request).is_err());
    assert!(unsupported.backend().http.is_empty());

    let mut disabled = ServiceRuntime::new(capabilities(&["http"]), DisabledServices);
    assert!(disabled.execute_http(&request).is_err());

    let mut enabled = ServiceRuntime::new(capabilities(&["http", "sms"]), RecordingBackend::default());
    assert_eq!(enabled.execute_http(&request).unwrap().body, b"fixture");
    enabled
        .send_sms(&SmsRequest { connection_url: "sms://12345".to_owned(), payload: "fixture".to_owned() })
        .unwrap();
    assert_eq!(enabled.backend().http, vec![request]);
    assert_eq!(enabled.backend().sms.len(), 1);
}

#[test]
fn wrong_schemes_and_methods_fail_before_the_backend() {
    let mut runtime = ServiceRuntime::new(capabilities(&["http", "sms"]), RecordingBackend::default());
    assert!(runtime.execute_http(&HttpRequest::new("sms://123", "POST")).is_err());
    assert!(runtime.execute_http(&HttpRequest::new("http://example.invalid", "PATCH")).is_err());
    assert!(runtime
        .send_sms(&SmsRequest { connection_url: "http://example.invalid".to_owned(), payload: String::new() })
        .is_err());
    assert!(runtime.backend().http.is_empty());
    assert!(runtime.backend().sms.is_empty());
}

#[test]
fn service_refusals_explain_themselves() {
    let mut runtime = ServiceRuntime::new(capabilities(&["http"]), RecordingBackend::default());
    assert_eq!(
        runtime.execute_http(&HttpRequest::new("no-scheme", "GET")).err(),
        Some(PlatformError::Service("connection name has no URI scheme: \"no-scheme\"".to_string()))
    );
    assert_eq!(
        runtime.execute_http(&HttpRequest::new("HTTPS://x", "GET")).err(),
        Some(PlatformError::Service("selected device profile does not expose Connector scheme \"https\"".to_string()))
    );
    assert_eq!(
        runtime.execute_http(&HttpRequest::new("ht tp://x", "GET")).err(),
        Some(PlatformError::Service("connection name has an invalid URI scheme: \"ht tp://x\"".to_string()))
    );
    assert_eq!(
        runtime.send_sms(&SmsRequest { connection_url: "Http://x".to_string(), payload: String::new() }).err(),
        Some(PlatformError::Service("\"http\" is not a MessageConnection SMS scheme".to_string()))
    );
}

#[test]
fn game_toml_slug_owns_the_per_game_directory() {
    let slug = slug_from_game_toml("slug = \"ink-world\"\ntitle = \"Ink World\"\n").unwrap();
    assert_eq!(slug, "ink-world");
    assert_eq!(application_data_dir_in(Path::new("/data"), &slug).unwrap(), Path::new("/data/j2me/ink-world"));
}

#[test]
fn path_separators_and_parent_components_are_rejected() {
    for slug in ["", ".", "..", "../other", "game/name", "game\\name"] {
        assert!(application_data_dir_in(Path::new("/data"), slug).is_err());
    }
    assert!(validate_slug("A-z_09").is_ok());
    assert!(slug_from_game_toml("title = 3\n").is_err());
    assert!(slug_from_game_toml("slug = [\n").is_err());
}

#[test]
fn snapshot_round_trip_preserves_ids_names_and_signed_bytes() {
    let mut runtime = RmsRuntime::new();
    runtime.open("settings", true).unwrap();
    runtime.get_mut("settings").unwrap().add_record(&[-128, -1, 0, 127], 0, 4).unwrap();
    let snapshot = runtime.snapshot();
    let encoded = encode_rms_snapshot(&snapshot).unwrap();
    assert_eq!(decode_rms_snapshot(&encoded).unwrap(), snapshot);

    let mut truncated = encoded;
    truncated.pop();
    assert!(decode_rms_snapshot(&truncated).is_err());

    let mut impossible_count = vec![0x4a, 0x32, 0x52, 0x4d, 0x53, 0x01, 0x00, 0x00];
    impossible_count.extend_from_slice(&u32::MAX.to_be_bytes());
    assert!(decode_rms_snapshot(&impossible_count).is_err());
}

#[test]
fn rms_file_layout_is_exact_big_endian() {
    let snapshot = RmsSnapshot {
        stores: vec![("s".to_string(), RecordStoreSnapshot { next_id: 2, records: vec![(1, vec![-1, 2])] })],
    };
    let encoded = encode_rms_snapshot(&snapshot).unwrap();
    let expected: Vec<u8> = vec![
        0x4a, 0x32, 0x52, 0x4d, 0x53, 0x01, 0x00, 0x00, // signature
        0, 0, 0, 1, // stores
        0, 0, 0, 1, b's', // name
        0, 0, 0, 2, // next id
        0, 0, 0, 1, // records
        0, 0, 0, 1, 0, 0, 0, 2, 0xff, 0x02,
    ];
    assert_eq!(encoded, expected);
    assert_eq!(decode_rms_snapshot(&expected).unwrap(), snapshot);
}

#[test]
fn rms_file_errors_name_the_first_problem() {
    let message = |bytes: &[u8]| match decode_rms_snapshot(bytes) {
        Err(PlatformError::CorruptRms(m)) => m,
        other => panic!("unexpected {other:?}"),
    };
    assert_eq!(message(&[0x4a, 0x32]), "truncated header");
    assert_eq!(message(&[0, 0, 0, 0, 0, 0, 0, 0, 0, 0, 0, 0]), "bad magic/version");
    let mut header = vec![0x4a, 0x32, 0x52, 0x4d, 0x53, 0x01, 0x00, 0x00];
    assert_eq!(message(&header), "truncated store count");
    header.extend_from_slice(&[0, 0, 0, 0, 9]);
    assert_eq!(message(&header), "trailing bytes");
    // A record id at or past next_id.
    let bad_ids = vec![
        0x4a, 0x32, 0x52, 0x4d, 0x53, 0x01, 0x00, 0x00, 0, 0, 0, 1, 0, 0, 0, 1, b's', 0, 0, 0, 1, 0, 0, 0, 1, 0, 0, 0,
        1, 0, 0, 0, 0,
    ];
    assert_eq!(message(&bad_ids), "RecordStoreException: invalid persisted record-id sequence");
    let unsorted = RmsSnapshot {
        stores: vec![
            ("b".to_string(), RecordStoreSnapshot { next_id: 1, records: vec![] }),
            ("a".to_string(), RecordStoreSnapshot { next_id: 1, records: vec![] }),
        ],
    };
    assert!(matches!(encode_rms_snapshot(&unsorted), Err(PlatformError::Config(_))));
}
