use esp_radar::app::{handle_display_event, notice_text, system_notice_text, DisplayEvent, NoticeEvent};
use esp_radar::clock::format_clock;
use esp_radar::renderer::RadarRenderer;

#[test]
fn wifi_ready_shows_connected() {
    let mut renderer = RadarRenderer::new();
    renderer.set_notice("CONNECTING...");
    assert_eq!(handle_display_event(&mut renderer, DisplayEvent::WifiReady), None);
    assert_eq!(renderer.status(), "WIFI CONNECTED");
    assert_eq!(renderer.notice(), "");
}

#[test]
fn verbosity_nine_enters_configuration() {
    let mut renderer = RadarRenderer::new();
    assert_eq!(handle_display_event(&mut renderer, DisplayEvent::VerbosityChanged(9)), Some(true));
    assert_eq!(renderer.verbosity(), 9);
    assert_eq!(renderer.status(), "[CONFIGURE]");
    assert_eq!(renderer.notice(), "CONFIGURATION MODE");
    assert_eq!(handle_display_event(&mut renderer, DisplayEvent::VerbosityChanged(4)), Some(false));
    assert_eq!(renderer.verbosity(), 4);
    assert_eq!(renderer.status(), "WIFI CONNECTED");
    assert_eq!(renderer.notice(), "");
}

#[test]
fn ip_clock_and_notice_events() {
    let mut renderer = RadarRenderer::new();
    assert_eq!(handle_display_event(&mut renderer, DisplayEvent::WifiIp([192, 168, 1, 42])), None);
    assert_eq!(renderer.ip_address(), "IP: 192.168.1.42");
    let clock = format_clock(2024, 2, 29, 23, 59, 58);
    assert_eq!(handle_display_event(&mut renderer, DisplayEvent::ClockTime(clock)), None);
    assert_eq!(renderer.clock(), "2024-02-29 23:59:58");
    let notice = system_notice_text("CONFIGURATION SAVED");
    assert_eq!(handle_display_event(&mut renderer, DisplayEvent::SystemNotice(notice)), None);
    assert_eq!(renderer.notice(), "CONFIGURATION SAVED");
}

#[test]
fn system_notice_capacity() {
    assert_eq!(system_notice_text("SETUP WIFI: 192.168.4.1"), "SETUP WIFI: 192.168.4.1");
    let exact = "X".repeat(48);
    assert_eq!(system_notice_text(&exact), exact);
    assert_eq!(system_notice_text(&"X".repeat(49)), "");
}

#[test]
fn notice_texts() {
    assert_eq!(notice_text(NoticeEvent::SetupPortalReady), "SETUP WIFI: 192.168.4.1");
    assert_eq!(notice_text(NoticeEvent::ConnectingToWifi), "CONNECTING TO WIFI...");
    assert_eq!(notice_text(NoticeEvent::WifiConnectionFailed), "WIFI CONNECTION FAILED");
    assert_eq!(notice_text(NoticeEvent::WifiSetupError), "WIFI SETUP ERROR");
    assert_eq!(notice_text(NoticeEvent::ConfigServerStarting), "CONFIG SERVER STARTING");
    assert_eq!(notice_text(NoticeEvent::ConfigServerAcceptFailed), "CONFIG SERVER ACCEPT FAILED");
    assert_eq!(notice_text(NoticeEvent::ConfigurationClientConnected), "CONFIGURATION CLIENT CONNECTED");
    assert_eq!(notice_text(NoticeEvent::ConfigurationRequestFailed), "CONFIGURATION REQUEST FAILED");
    assert_eq!(notice_text(NoticeEvent::ConfigurationSaved), "CONFIGURATION SAVED");
}

#[test]
fn clock_formats() {
    assert_eq!(format_clock(2025, 1, 2, 3, 4, 5), "2025-01-02 03:04:05");
    assert_eq!(format_clock(987, 12, 31, 0, 0, 0), "0987-12-31 00:00:00");
    assert_eq!(format_clock(-5, 6, 7, 8, 9, 10), "-005-06-07 08:09:10");
    assert_eq!(format_clock(-9999, 1, 1, 1, 1, 1), "-9999-01-01 01:01:01");
    for (y, mo, d, h, mi, s) in [(2025i32, 1u8, 2u8, 3u8, 4u8, 5u8), (-5, 6, 7, 8, 9, 10), (9999, 12, 31, 23, 59, 60)] {
        assert_eq!(format_clock(y, mo, d, h, mi, s), format!("{:04}-{:02}-{:02} {:02}:{:02}:{:02}", y, mo, d, h, mi, s));
    }
}

#[test]
fn clock_stops_at_capacity() {
    assert_eq!(format_clock(123456, 1, 1, 0, 0, 0), "123456-01-01 00:00:0");
    assert_eq!(format_clock(i32::MIN, 1, 1, 1, 1, 1), "-2147483648-01-01 01");
    assert_eq!(format_clock(2024, 255, 1, 0, 0, 0), "2024-255-01 00:00:00");
    assert!(format_clock(i32::MAX, 255, 255, 255, 255, 255).len() <= 20);
}
