//! Network-side decisions: what is kept from the flight and place services,
//! and when they are asked.

use core::sync::atomic::{AtomicBool, Ordering};
use vstd::prelude::*;

pub mod decoder;
pub mod places;

verus! {

/// Seconds between two polls of the flight service.
pub const POLL_INTERVAL_SECONDS: u64 = 60;

/// Milliseconds the poller waits before looking again while the device is
/// in configuration mode.
pub const CONFIGURATION_PAUSE_MILLISECONDS: u64 = 250;

/// Switches configuration mode on or off for the network tasks that read
/// `flag`; the store is published with release ordering.
pub fn set_configuration_mode(flag: &AtomicBool, enabled: bool) {
    flag.store(enabled, Ordering::Release);
}

/// An HTTP answer is used unless its status reports an error (400 or above).
pub fn response_accepted(status: u16) -> (accepted: bool)
    ensures
        accepted == (status < 400),
{
    status < 400
}

/// What the poller does next.
#[derive(PartialEq, Eq, Structural, Clone, Copy, Debug)]
pub enum PollStep {
    /// Wait `CONFIGURATION_PAUSE_MILLISECONDS`: the configuration server
    /// has the network.
    PauseForConfiguration,
    /// Fetch the aircraft around the radar centre and, when `fetch_cities`,
    /// the cities too; then wait `POLL_INTERVAL_SECONDS`.
    Fetch { fetch_cities: bool },
}

/// The next step of the poller: nothing while in configuration mode; else
/// the aircraft, and the cities when those on the map were not fetched for
/// the current configuration.
pub fn next_poll_step(configuration_mode: bool, cities_current: bool) -> (step: PollStep)
    ensures
        step == if configuration_mode {
            PollStep::PauseForConfiguration
        } else {
            PollStep::Fetch { fetch_cities: !cities_current }
        },
{
    if configuration_mode {
        PollStep::PauseForConfiguration
    } else {
        PollStep::Fetch { fetch_cities: !cities_current }
    }
}

} // verus!
