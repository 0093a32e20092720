use j2me_kit::me::midlet::{HostMidletOp, MidletLifecycle, MidletState};

#[test]
fn callbacks_are_committed_only_after_success() {
    let mut lifecycle = MidletLifecycle::new();
    let start = lifecycle.request_start().unwrap();
    assert_eq!(lifecycle.state(), MidletState::Paused);
    lifecycle.commit(start).unwrap();
    assert_eq!(lifecycle.state(), MidletState::Active);

    let pause = lifecycle.request_pause().unwrap();
    lifecycle.commit(pause).unwrap();
    assert_eq!(lifecycle.state(), MidletState::Paused);
}

#[test]
fn midlet_requests_do_not_invent_window_focus_policy() {
    let mut lifecycle = MidletLifecycle::new();
    lifecycle.resume_request().unwrap();
    assert_eq!(lifecycle.state(), MidletState::Paused);
    assert_eq!(
        lifecycle.drain_host_ops(),
        vec![HostMidletOp::ResumeRequest]
    );

    lifecycle.notify_destroyed();
    assert_eq!(lifecycle.state(), MidletState::Destroyed);
    assert!(lifecycle.request_start().is_err());
}

#[test]
fn platform_request_is_profile_controlled_and_host_visible() {
    let mut supported = MidletLifecycle::with_platform_request_result(Some(true));
    assert!(supported
        .platform_request("https://example.invalid")
        .unwrap());
    assert_eq!(
        supported.drain_host_ops(),
        vec![HostMidletOp::PlatformRequest {
            url: "https://example.invalid".to_owned()
        }]
    );
    assert!(MidletLifecycle::new()
        .platform_request("https://example.invalid")
        .is_err());
}
