use j2me_kit::device::MediaFragment;
use j2me_kit::jvm::JavaError;
use j2me_kit::me::media::{HostAudioOp, MediaRuntime, MediaSource, PlayerEvent, PlayerId, PlayerState};

#[test]
fn mmapi_state_integers_match_the_contract() {
    assert_eq!(PlayerState::Closed.as_mmapi_int(), 0);
    assert_eq!(PlayerState::Unrealized.as_mmapi_int(), 100);
    assert_eq!(PlayerState::Realized.as_mmapi_int(), 200);
    assert_eq!(PlayerState::Prefetched.as_mmapi_int(), 300);
    assert_eq!(PlayerState::Started.as_mmapi_int(), 400);
}

#[test]
fn lifecycle_walks_the_states_and_emits_ops() {
    // A typical start() path: realize -> prefetch -> start, then stop.
    let mut m = MediaRuntime::new();
    let p = m.create_player(7, "audio/midi");
    assert_eq!(m.get_state(p).unwrap(), 100);
    m.realize(p).unwrap();
    assert_eq!(m.get_state(p).unwrap(), 200);
    m.prefetch(p).unwrap();
    assert_eq!(m.get_state(p).unwrap(), 300);
    m.set_loop_count(p, 1).unwrap();
    m.start(p).unwrap();
    assert_eq!(m.get_state(p).unwrap(), 400);
    assert!(m.get_state(p).unwrap() >= 400, "isPlaying is state >= 400");
    m.stop(p).unwrap();
    assert_eq!(m.get_state(p).unwrap(), 300);

    let ops = m.ops();
    assert!(ops.contains(&HostAudioOp::Start {
        player: p,
        source: MediaSource::Opaque(7)
    }));
    assert!(ops.contains(&HostAudioOp::Stop {
        player: p,
        source: MediaSource::Opaque(7)
    }));
}

#[test]
fn start_on_started_is_a_silent_noop() {
    let mut m = MediaRuntime::new();
    let p = m.create_player(1, "audio/midi");
    m.prefetch(p).unwrap();
    m.start(p).unwrap();
    m.clear_ops();
    m.start(p).unwrap(); // already STARTED
    assert!(m.drain_ops().is_empty());
}

#[test]
fn set_loop_count_rejected_while_started() {
    let mut m = MediaRuntime::new();
    let p = m.create_player(1, "audio/midi");
    m.prefetch(p).unwrap();
    m.start(p).unwrap();
    assert!(m.set_loop_count(p, 1).is_err());
}

#[test]
fn closed_player_rejects_transitions() {
    let mut m = MediaRuntime::new();
    let p = m.create_player(1, "audio/midi");
    m.close(p).unwrap();
    assert_eq!(m.get_state(p).unwrap(), 0);
    assert!(m.realize(p).is_err());
    assert!(m.prefetch(p).is_err());
    assert!(m.start(p).is_err());
}

#[test]
fn volume_control_is_present_and_sets_a_clamped_level() {
    // The setVolume path: getControl("VolumeControl") then setLevel(level).
    let mut m = MediaRuntime::new();
    let p = m.create_player(2, "audio/x-wav");
    assert!(m.get_control(p, "VolumeControl").unwrap());
    assert!(!m.get_control(p, "ToneControl").unwrap()); // absent (null)
    assert_eq!(m.set_level(p, 70).unwrap(), 70);
    assert_eq!(m.get_level(p).unwrap(), 70);
    // Clamp out-of-range levels rather than storing them raw (R3 control).
    assert_eq!(m.set_level(p, 150).unwrap(), 100);
    assert_eq!(m.set_level(p, -5).unwrap(), 0);
    assert!(m.ops().contains(&HostAudioOp::SetVolume {
        player: p,
        level: 100
    }));
}

#[test]
fn add_player_listener_is_recorded() {
    let mut m = MediaRuntime::new();
    let p = m.create_player(3, "audio/midi");
    assert!(!m.has_listener(p).unwrap());
    m.add_player_listener(p).unwrap();
    assert!(m.has_listener(p).unwrap());
}

#[test]
fn a_bad_handle_is_a_null_pointer_not_a_panic() {
    let m = MediaRuntime::new();
    assert!(matches!(
        m.get_state(PlayerId(9)),
        Err(JavaError::NullPointer)
    ));
}

#[test]
fn capabilities_control_mime_aliases_and_controls() {
    let capabilities = MediaFragment {
        content_types: vec!["audio/midi".to_owned()],
        mime_aliases: vec![("audio/x-midi".to_owned(), "audio/midi".to_owned())],
        controls: Vec::new(),
        midi_renderer: "approximate".to_owned(),
    };
    let mut runtime = MediaRuntime::with_capabilities(capabilities);
    let player = runtime
        .create_player_resource("/audio/theme.mid", "audio/x-midi")
        .unwrap();
    assert_eq!(runtime.content_type(player).unwrap(), "audio/midi");
    assert!(!runtime.get_control(player, "VolumeControl").unwrap());
    assert!(runtime
        .create_player_resource("/audio/voice.amr", "audio/amr")
        .is_err());
}

#[test]
fn mute_seek_and_completion_are_stateful_and_host_visible() {
    let mut runtime = MediaRuntime::new();
    let player = runtime
        .create_player_resource("/tone.wav", "audio/x-wav")
        .unwrap();
    runtime.add_player_listener(player).unwrap();
    runtime.set_mute(player, true).unwrap();
    runtime.set_media_time(player, 42_000).unwrap();
    assert_eq!(runtime.duration(player).unwrap(), -1);
    runtime.set_duration(player, 125_000).unwrap();
    runtime.start(player).unwrap();
    runtime.notify_end_of_media(player).unwrap();
    assert!(runtime.is_muted(player).unwrap());
    assert_eq!(runtime.media_time(player).unwrap(), 42_000);
    assert_eq!(runtime.duration(player).unwrap(), 125_000);
    assert_eq!(runtime.get_state(player).unwrap(), 300);
    assert!(runtime
        .drain_events()
        .contains(&(player, PlayerEvent::EndOfMedia)));
}

#[test]
fn closed_player_operations_are_illegal_state() {
    let mut m = MediaRuntime::new();
    let p = m.create_player(1, "audio/midi");
    m.close(p).unwrap();
    let n = m.ops().len();
    assert!(matches!(m.realize(p), Err(JavaError::IllegalState(_))));
    assert!(matches!(m.prefetch(p), Err(JavaError::IllegalState(_))));
    assert!(matches!(m.start(p), Err(JavaError::IllegalState(_))));
    assert!(matches!(m.stop(p), Err(JavaError::IllegalState(_))));
    assert_eq!(m.get_state(p), Ok(0));
    assert_eq!(m.ops().len(), n);
}
