use core::sync::atomic::{AtomicBool, Ordering};
use esp_radar::network::{next_poll_step, response_accepted, set_configuration_mode, PollStep};

#[test]
fn configuration_mode_flag() {
    let flag = AtomicBool::new(false);
    set_configuration_mode(&flag, true);
    assert!(flag.load(Ordering::Acquire));
    set_configuration_mode(&flag, false);
    assert!(!flag.load(Ordering::Acquire));
}

#[test]
fn http_status_threshold() {
    assert!(response_accepted(200));
    assert!(response_accepted(399));
    assert!(!response_accepted(400));
    assert!(!response_accepted(503));
}

#[test]
fn poll_steps() {
    assert_eq!(next_poll_step(true, false), PollStep::PauseForConfiguration);
    assert_eq!(next_poll_step(true, true), PollStep::PauseForConfiguration);
    assert_eq!(next_poll_step(false, false), PollStep::Fetch { fetch_cities: true });
    assert_eq!(next_poll_step(false, true), PollStep::Fetch { fetch_cities: false });
}
