//! How application events change what the radar screen shows.

use vstd::prelude::*;

use crate::clock::CLOCK_CAPACITY;
use crate::helpers::utf8_len;
use crate::renderer::{RadarRenderer, RendererView, NOTICE_CAPACITY, STATUS_CAPACITY, ip_octets_text};
use crate::text::{bounded_text, pushed_within};

verus! {

/// Verbosity level at which the device enters configuration mode.
pub const CONFIGURATION_VERBOSITY: u8 = 9;

/// The events that change the texts of the screen.
pub enum DisplayEvent {
    /// Wi-Fi is connected.
    WifiReady,
    /// The device received this IPv4 address.
    WifiIp([u8; 4]),
    /// The knob selected another verbosity level.
    VerbosityChanged(u8),
    /// The clock ticked; the text fits the clock line.
    ClockTime(String),
    /// A system notice to show.
    SystemNotice(String),
}

/// The status shown once Wi-Fi is connected.
pub open spec fn connected_status() -> Seq<char> {
    "WIFI CONNECTED"@
}

/// The status shown in configuration mode.
pub open spec fn configure_status() -> Seq<char> {
    "[CONFIGURE]"@
}

/// The notice shown in configuration mode.
pub open spec fn configuration_notice() -> Seq<char> {
    "CONFIGURATION MODE"@
}

/// The screen after `event`.
pub open spec fn view_after(view: RendererView, event: DisplayEvent) -> RendererView {
    match event {
        DisplayEvent::WifiReady => RendererView {
            status: connected_status(),
            notice: Seq::empty(),
            ..view
        },
        DisplayEvent::WifiIp(octets) => RendererView { ip_address: ip_octets_text(octets), ..view },
        DisplayEvent::VerbosityChanged(level) => {
            let configuration = level == CONFIGURATION_VERBOSITY;
            RendererView {
                verbosity: if level < 9 { level } else { 9 },
                status: if configuration { configure_status() } else { connected_status() },
                notice: if configuration { configuration_notice() } else { Seq::empty() },
                ..view
            }
        },
        DisplayEvent::ClockTime(text) => RendererView { clock: text@, ..view },
        DisplayEvent::SystemNotice(text) => RendererView {
            notice: pushed_within(Seq::empty(), text@, NOTICE_CAPACITY as nat),
            ..view
        },
    }
}

/// Whether configuration mode is switched by `event`, and to what.
pub open spec fn configuration_after(event: DisplayEvent) -> Option<bool> {
    match event {
        DisplayEvent::VerbosityChanged(level) => Some(level == CONFIGURATION_VERBOSITY),
        _ => None,
    }
}

/// Law of the verbosity knob: turning it to level 9, and only to level 9,
/// switches configuration mode on, with the status `[CONFIGURE]` and the
/// notice `CONFIGURATION MODE`; every lower level switches it off, shows the
/// status `WIFI CONNECTED` and clears the notice; the level shown is the
/// level chosen, at most 9; the clock and the address are left as they were.
pub proof fn lemma_verbosity_configuration(view: RendererView, level: u8)
    ensures
        configuration_after(DisplayEvent::VerbosityChanged(level)) == Some(level == 9),
        view_after(view, DisplayEvent::VerbosityChanged(level)).verbosity == if level < 9 {
            level
        } else {
            9u8
        },
        level == 9 ==> view_after(view, DisplayEvent::VerbosityChanged(level)).status
            == "[CONFIGURE]"@,
        level == 9 ==> view_after(view, DisplayEvent::VerbosityChanged(level)).notice
            == "CONFIGURATION MODE"@,
        level != 9 ==> view_after(view, DisplayEvent::VerbosityChanged(level)).status
            == "WIFI CONNECTED"@,
        level != 9 ==> view_after(view, DisplayEvent::VerbosityChanged(level)).notice == Seq::<
            char,
        >::empty(),
        view_after(view, DisplayEvent::VerbosityChanged(level)).clock == view.clock,
        view_after(view, DisplayEvent::VerbosityChanged(level)).ip_address == view.ip_address,
{
}

proof fn lemma_literals()
    ensures
        pushed_within(Seq::empty(), connected_status(), STATUS_CAPACITY as nat) == connected_status(),
        pushed_within(Seq::empty(), configure_status(), STATUS_CAPACITY as nat) == configure_status(),
        pushed_within(Seq::empty(), configuration_notice(), NOTICE_CAPACITY as nat)
            == configuration_notice(),
        pushed_within(Seq::empty(), ""@, NOTICE_CAPACITY as nat) == Seq::<char>::empty(),
{
    reveal_strlit("");
    reveal_strlit("WIFI CONNECTED");
    reveal_strlit("[CONFIGURE]");
    reveal_strlit("CONFIGURATION MODE");
    crate::text::lemma_ascii_utf8_len(connected_status());
    crate::text::lemma_ascii_utf8_len(configure_status());
    crate::text::lemma_ascii_utf8_len(configuration_notice());
    crate::text::lemma_ascii_utf8_len(Seq::<char>::empty());
    assert(Seq::<char>::empty() + connected_status() =~= connected_status());
    assert(Seq::<char>::empty() + configure_status() =~= configure_status());
    assert(Seq::<char>::empty() + configuration_notice() =~= configuration_notice());
    assert(Seq::<char>::empty() + Seq::<char>::empty() =~= Seq::<char>::empty());
}

/// Applies an event to the screen; returns the configuration mode to hand
/// to the network tasks when the event switches it.
pub fn handle_display_event(renderer: &mut RadarRenderer, event: DisplayEvent) -> (configuration:
    Option<bool>)
    requires
        event matches DisplayEvent::ClockTime(text) ==> utf8_len(text@) <= CLOCK_CAPACITY,
    ensures
        final(renderer)@ == view_after(old(renderer)@, event),
        configuration == configuration_after(event),
{
    proof {
        lemma_literals();
    }
    match event {
        DisplayEvent::WifiReady => {
            renderer.set_status("WIFI CONNECTED");
            renderer.set_notice("");
            None
        },
        DisplayEvent::WifiIp(octets) => {
            renderer.set_ip_octets(octets);
            None
        },
        DisplayEvent::VerbosityChanged(level) => {
            renderer.set_verbosity(level);
            let configuration = level == CONFIGURATION_VERBOSITY;
            if configuration {
                renderer.set_status("[CONFIGURE]");
                renderer.set_notice("CONFIGURATION MODE");
            } else {
                renderer.set_status("WIFI CONNECTED");
                renderer.set_notice("");
            }
            Some(configuration)
        },
        DisplayEvent::ClockTime(text) => {
            renderer.set_clock(text);
            None
        },
        DisplayEvent::SystemNotice(text) => {
            renderer.set_notice(text.as_str());
            None
        },
    }
}

/// The text of a system notice, as the fixed-capacity notice holds it:
/// the text itself when it fits, otherwise nothing.
pub fn system_notice_text(text: &str) -> (notice: String)
    ensures
        notice@ == pushed_within(Seq::empty(), text@, NOTICE_CAPACITY as nat),
        utf8_len(notice@) <= NOTICE_CAPACITY,
{
    bounded_text(text, NOTICE_CAPACITY)
}

/// Situations that the device reports with a notice on the screen.
#[derive(PartialEq, Eq, Structural, Clone, Copy, Debug)]
pub enum NoticeEvent {
    /// The Wi-Fi setup portal is waiting for the user.
    SetupPortalReady,
    /// Connecting to the stored Wi-Fi network.
    ConnectingToWifi,
    /// The stored Wi-Fi network could not be joined.
    WifiConnectionFailed,
    /// Wi-Fi setup itself failed.
    WifiSetupError,
    /// The configuration server is starting.
    ConfigServerStarting,
    /// The configuration server could not accept a connection.
    ConfigServerAcceptFailed,
    /// A browser connected to the configuration server.
    ConfigurationClientConnected,
    /// The configuration request failed.
    ConfigurationRequestFailed,
    /// The configuration request completed.
    ConfigurationSaved,
}

/// The notice text of each situation.
pub open spec fn notice_for(event: NoticeEvent) -> Seq<char> {
    match event {
        NoticeEvent::SetupPortalReady => "SETUP WIFI: 192.168.4.1"@,
        NoticeEvent::ConnectingToWifi => "CONNECTING TO WIFI..."@,
        NoticeEvent::WifiConnectionFailed => "WIFI CONNECTION FAILED"@,
        NoticeEvent::WifiSetupError => "WIFI SETUP ERROR"@,
        NoticeEvent::ConfigServerStarting => "CONFIG SERVER STARTING"@,
        NoticeEvent::ConfigServerAcceptFailed => "CONFIG SERVER ACCEPT FAILED"@,
        NoticeEvent::ConfigurationClientConnected => "CONFIGURATION CLIENT CONNECTED"@,
        NoticeEvent::ConfigurationRequestFailed => "CONFIGURATION REQUEST FAILED"@,
        NoticeEvent::ConfigurationSaved => "CONFIGURATION SAVED"@,
    }
}

/// The notice text reported for a situation.
pub fn notice_text(event: NoticeEvent) -> (text: &'static str)
    ensures
        text@ == notice_for(event),
{
    match event {
        NoticeEvent::SetupPortalReady => "SETUP WIFI: 192.168.4.1",
        NoticeEvent::ConnectingToWifi => "CONNECTING TO WIFI...",
        NoticeEvent::WifiConnectionFailed => "WIFI CONNECTION FAILED",
        NoticeEvent::WifiSetupError => "WIFI SETUP ERROR",
        NoticeEvent::ConfigServerStarting => "CONFIG SERVER STARTING",
        NoticeEvent::ConfigServerAcceptFailed => "CONFIG SERVER ACCEPT FAILED",
        NoticeEvent::ConfigurationClientConnected => "CONFIGURATION CLIENT CONNECTED",
        NoticeEvent::ConfigurationRequestFailed => "CONFIGURATION REQUEST FAILED",
        NoticeEvent::ConfigurationSaved => "CONFIGURATION SAVED",
    }
}

} // verus!
