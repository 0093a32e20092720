use j2me_kit::device::InputFragment;
use j2me_kit::jvm::JavaError;
use j2me_kit::me::canvas::{
    get_game_action, get_game_action_profile, Canvas, CanvasEvent, Command, CommandId, Display, HostDisplayOp,
    GAME_A, KEY_NUM2, KEY_NUM4, KEY_NUM5, UP,
};

#[test]
fn paint_is_serialized_before_input_and_coalesces() {
    let mut canvas = Canvas::new(128, 128);
    canvas.key_pressed(KEY_NUM5);
    canvas.request_repaint();
    canvas.request_repaint();
    assert_eq!(canvas.poll_event(), Some(CanvasEvent::Paint));
    assert_eq!(canvas.poll_event(), Some(CanvasEvent::KeyPressed(KEY_NUM5)));
    assert_eq!(canvas.poll_event(), None);
}

#[test]
fn display_lifecycle_schedules_initial_paint() {
    let mut display = Display::default();
    let mut canvas = Canvas::new(176, 220);
    display.set_current(None, &mut canvas);
    assert!(display.has_current());
    assert!(canvas.is_shown());
    assert_eq!(canvas.poll_event(), Some(CanvasEvent::Paint));
    display.clear_current(&mut canvas);
    assert!(!canvas.is_shown());
}

#[test]
fn notifying_transition_hides_before_showing_and_exposes_updated_state() {
    let mut display = Display::default();
    let mut previous = Canvas::new(176, 220);
    let mut next = Canvas::new(240, 320);
    display.set_current(None, &mut previous);
    let calls = std::cell::RefCell::new(Vec::new());

    display
        .set_current_notifying(
            Some(&mut previous),
            &mut next,
            |canvas| {
                assert!(!canvas.is_shown());
                calls.borrow_mut().push("hide");
                Ok::<(), &'static str>(())
            },
            |canvas| {
                assert!(canvas.is_shown());
                calls.borrow_mut().push("show");
                Ok::<(), &'static str>(())
            },
        )
        .unwrap();

    assert_eq!(calls.into_inner(), vec!["hide", "show"]);
    assert!(!previous.is_shown());
    assert!(next.is_shown());
    assert!(display.has_current());
    assert_eq!(next.poll_event(), Some(CanvasEvent::Paint));
}

#[test]
fn notifying_transition_preserves_hide_and_show_failure_cut_points() {
    let mut display = Display::default();
    let mut previous = Canvas::new(176, 220);
    let mut next = Canvas::new(240, 320);
    display.set_current(None, &mut previous);

    let hide_failure = display.set_current_notifying(
        Some(&mut previous),
        &mut next,
        |canvas| {
            assert!(!canvas.is_shown());
            Err("hide")
        },
        |_| panic!("showNotify must not run after hideNotify fails"),
    );
    assert_eq!(hide_failure, Err("hide"));
    assert!(!previous.is_shown());
    assert!(!next.is_shown());
    assert!(!display.has_current());

    let show_failure = display.set_current_notifying(
        None,
        &mut next,
        |_| panic!("there is no previous Canvas to hide"),
        |canvas| {
            assert!(canvas.is_shown());
            Err("show")
        },
    );
    assert_eq!(show_failure, Err("show"));
    assert!(next.is_shown());
    assert!(display.has_current());

    let hide_failure = display.clear_current_notifying(&mut next, |canvas| {
        assert!(!canvas.is_shown());
        Err("clear-hide")
    });
    assert_eq!(hide_failure, Err("clear-hide"));
    assert!(!next.is_shown());
    assert!(!display.has_current());
}

#[test]
fn vibration_reports_capability_and_emits_only_supported_requests() {
    let mut unsupported = Display::default();
    assert_eq!(unsupported.vibrate(500), Ok(false));
    assert!(unsupported.host_ops().is_empty());

    let mut supported = Display::with_vibration_support(true);
    assert_eq!(supported.vibrate(500), Ok(true));
    assert_eq!(
        supported.drain_host_ops(),
        vec![HostDisplayOp::Vibrate { duration_ms: 500 }]
    );
    assert!(matches!(
        supported.vibrate(-1),
        Err(JavaError::IllegalArgument(_))
    ));
}

#[test]
fn game_action_has_no_implicit_phone_table() {
    let custom = |code| if code == 710 { GAME_A } else { 0 };
    assert_eq!(get_game_action(710, &custom), GAME_A);
    assert_eq!(get_game_action(KEY_NUM2, &custom), 0);

    let input = InputFragment {
        up: 700,
        down: 701,
        left: 702,
        right: 703,
        fire: 704,
        soft_left: 705,
        soft_right: 706,
        star: 707,
        pound: 708,
        digits: [720, 721, 722, 723, 724, 725, 726, 727, 728, 729],
        game_action_up: vec![700, 722],
        game_action_down: vec![701, 728],
        game_action_left: vec![702, 724],
        game_action_right: vec![703, 726],
        game_action_fire: vec![704, 725],
        pointer_events: true,
        pointer_motion_events: true,
        repeat_events: true,
    };
    assert_eq!(get_game_action_profile(722, &input), UP);
    assert_eq!(get_game_action_profile(705, &input), 0);
}

#[test]
fn raw_key_codes_pass_through_untouched() {
    // The game remaps/branches on the raw code itself, so the queue must not
    // reject or rewrite a code — even the game-specific -8 the game synthesizes.
    let mut c = Canvas::new(240, 320);
    c.key_pressed(-8);
    c.key_released(53);
    assert_eq!(c.poll_event(), Some(CanvasEvent::KeyPressed(-8)));
    assert_eq!(c.poll_event(), Some(CanvasEvent::KeyReleased(53)));
    assert_eq!(c.poll_event(), None);
}

#[test]
fn owed_paint_is_serviced_before_the_next_key() {
    // R9: a key delivered WHILE a repaint is owed is queued behind the paint.
    let mut c = Canvas::new(240, 320);
    c.request_repaint();
    c.key_pressed(KEY_NUM5); // arrives with a paint already owed

    // Perturbation control (R3): the key really is queued — if poll_event
    // drained input before the owed paint, this would be the key first.
    assert_eq!(c.pending_input_len(), 1);

    assert_eq!(c.poll_event(), Some(CanvasEvent::Paint));
    assert_eq!(c.poll_event(), Some(CanvasEvent::KeyPressed(KEY_NUM5)));
    assert_eq!(c.poll_event(), None);
}

#[test]
fn multiple_repaints_coalesce_to_one_paint() {
    let mut c = Canvas::new(240, 320);
    c.request_repaint();
    c.request_repaint();
    c.request_repaint();
    assert_eq!(c.poll_event(), Some(CanvasEvent::Paint));
    assert_eq!(c.poll_event(), None); // only one paint owed
}

#[test]
fn keys_dispatch_in_arrival_order_once_no_paint_is_owed() {
    let mut c = Canvas::new(240, 320);
    c.key_pressed(KEY_NUM4);
    c.key_released(KEY_NUM4);
    c.key_pressed(-5);
    assert_eq!(c.poll_event(), Some(CanvasEvent::KeyPressed(KEY_NUM4)));
    assert_eq!(c.poll_event(), Some(CanvasEvent::KeyReleased(KEY_NUM4)));
    assert_eq!(c.poll_event(), Some(CanvasEvent::KeyPressed(-5)));
    assert_eq!(c.poll_event(), None);
}

#[test]
fn service_repaints_consumes_the_owed_paint_synchronously() {
    let mut c = Canvas::new(240, 320);
    c.request_repaint();
    assert!(c.service_repaints()); // a paint was due -> host paints now
    assert!(!c.repaint_owed());
    assert_eq!(c.poll_event(), None); // already serviced; no duplicate paint
    assert!(!c.service_repaints()); // nothing owed now
}

#[test]
fn full_screen_mode_is_recorded() {
    let mut c = Canvas::new(240, 320);
    assert!(!c.is_full_screen());
    c.set_full_screen_mode(true);
    assert!(c.is_full_screen());
}

#[test]
fn set_current_shows_and_schedules_the_first_paint() {
    let mut d = Display::default();
    let mut c = Canvas::new(176, 208);
    assert!(!c.is_shown());
    d.set_current(None, &mut c);
    assert!(d.has_current());
    assert!(c.is_shown());
    // The first serviced event after becoming current is the paint (R9),
    // even if a key was already waiting.
    c.key_pressed(KEY_NUM5);
    assert_eq!(c.poll_event(), Some(CanvasEvent::Paint));
    assert_eq!(c.poll_event(), Some(CanvasEvent::KeyPressed(KEY_NUM5)));
}

#[test]
fn hide_notify_clears_shown() {
    let mut d = Display::default();
    let mut c = Canvas::new(240, 320);
    d.set_current(None, &mut c);
    assert!(c.is_shown());
    d.clear_current(&mut c);
    assert!(!c.is_shown());
}

#[test]
fn pointer_resize_and_command_callbacks_share_the_serial_queue() {
    let mut c = Canvas::new(128, 160);
    c.pointer_pressed(7, 11);
    c.resize(176, 208).unwrap();
    let left = Command::new(CommandId(1), " ", Command::OK, 1);
    c.add_command(left);
    c.set_command_listener(true);
    assert!(c.command_action(CommandId(1)));

    // resize owes a repaint, so the serialized MIDP paint remains first.
    assert_eq!(c.poll_event(), Some(CanvasEvent::Paint));
    assert_eq!(
        c.poll_event(),
        Some(CanvasEvent::PointerPressed { x: 7, y: 11 })
    );
    assert_eq!(
        c.poll_event(),
        Some(CanvasEvent::SizeChanged {
            width: 176,
            height: 208
        })
    );
    assert_eq!(
        c.poll_event(),
        Some(CanvasEvent::CommandAction(CommandId(1)))
    );
}
