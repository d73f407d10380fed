use embedded_graphics::pixelcolor::Rgb565;
use embedded_graphics::prelude::RgbColor;
use esp_radar::renderer::{
    aircraft_color, fps_text, panel_color, PanelColor, place_city_labels, rgb565, CityMark, LabelBox, NoticeBox, OverlayItem,
    OverlayText, RadarRenderer, TextStyle, HEIGHT, WIDTH,
};

fn channels(color: PanelColor) -> (u8, u8, u8) {
    let panel = Rgb565::new(color.red, color.green, color.blue);
    assert_eq!((panel.r(), panel.g(), panel.b()), (color.red, color.green, color.blue));
    (color.red, color.green, color.blue)
}

#[test]
fn panel_color_drops_high_bits_like_rgb565() {
    for (r, g, b) in [(0u8, 0u8, 0u8), (31, 63, 31), (255, 255, 255), (32, 64, 32), (0x9c, 0x7f, 0x21)] {
        let color = panel_color(r, g, b);
        let panel = Rgb565::new(r, g, b);
        assert_eq!((color.red, color.green, color.blue), (panel.r(), panel.g(), panel.b()));
    }
}

#[test]
fn rgb565_takes_top_bits() {
    assert_eq!(channels(rgb565(0xFFFFFF)), (31, 63, 31));
    assert_eq!(channels(rgb565(0x000000)), (0, 0, 0));
    assert_eq!(channels(rgb565(0x00FF50)), (0, 63, 10));
    assert_eq!(channels(rgb565(0xB0B0B0)), (22, 44, 22));
}

#[test]
fn aircraft_colors_by_category_and_id() {
    assert_eq!(channels(aircraft_color(0, 0)), (22, 44, 22));
    assert_eq!(channels(aircraft_color(4, 0)), (31, 35, 0));
    assert_eq!(channels(aircraft_color(4, 7)), (28, 32, 0));
    assert_eq!(channels(aircraft_color(200, 1)), (21, 43, 21));
    assert_eq!(channels(aircraft_color(8, 2)), (0, 54, 20));
}

#[test]
fn new_renderer_state() {
    let renderer = RadarRenderer::new();
    assert_eq!(renderer.verbosity(), 3);
    assert_eq!(renderer.status(), "");
    assert_eq!(renderer.ip_address(), "");
    assert_eq!(renderer.clock(), "");
    assert_eq!(renderer.notice(), "");
    assert_eq!(renderer.notice_box(), None);
}

#[test]
fn setters_respect_capacity() {
    let mut renderer = RadarRenderer::new();
    renderer.set_status("WIFI CONNECTED");
    assert_eq!(renderer.status(), "WIFI CONNECTED");
    renderer.set_status("THIS STATUS TEXT IS FAR TOO LONG FOR THE LINE");
    assert_eq!(renderer.status(), "");
    renderer.set_notice("CONNECTING...");
    assert_eq!(renderer.notice(), "CONNECTING...");
    renderer.set_notice("A NOTICE THAT IS MUCH LONGER THAN FORTY EIGHT BYTES IN ALL");
    assert_eq!(renderer.notice(), "");
    renderer.set_ip("192.168.4.1");
    assert_eq!(renderer.ip_address(), "IP: 192.168.4.1");
    renderer.set_ip("an address far too long to fit");
    assert_eq!(renderer.ip_address(), "IP: ");
    renderer.set_ip_octets([255, 255, 255, 255]);
    assert_eq!(renderer.ip_address(), "IP: 255.255.255.255");
    renderer.set_ip_octets([10, 0, 7, 1]);
    assert_eq!(renderer.ip_address(), "IP: 10.0.7.1");
    renderer.set_clock(String::from("2025-01-02 03:04:05"));
    assert_eq!(renderer.clock(), "2025-01-02 03:04:05");
    assert_eq!(renderer.status(), "");
}

#[test]
fn verbosity_is_capped() {
    let mut renderer = RadarRenderer::new();
    renderer.set_verbosity(7);
    assert_eq!(renderer.verbosity(), 7);
    renderer.set_verbosity(200);
    assert_eq!(renderer.verbosity(), 9);
    assert_eq!(renderer.verbosity_text(), "V:9");
}

#[test]
fn visibility_rules() {
    let mut renderer = RadarRenderer::new();
    renderer.set_verbosity(1);
    assert!(!renderer.cities_visible());
    assert!(!renderer.aircraft_label_visible("DLH1"));
    renderer.set_verbosity(2);
    assert!(renderer.cities_visible());
    assert!(!renderer.aircraft_label_visible("DLH1"));
    renderer.set_verbosity(3);
    assert!(renderer.aircraft_label_visible("DLH1"));
    assert!(!renderer.aircraft_label_visible(""));
}

fn item(text: OverlayText, x: i32, y: i32, style: TextStyle) -> OverlayItem {
    OverlayItem { text, x, y, style }
}

#[test]
fn overlay_at_low_verbosity() {
    let renderer = RadarRenderer::new();
    assert_eq!(
        renderer.overlay_layout(3),
        vec![
            item(OverlayText::Verbosity, 296, 13, TextStyle::Compact),
            item(OverlayText::Clock, 5, 13, TextStyle::Bright),
        ]
    );
}

#[test]
fn overlay_at_full_verbosity() {
    let mut renderer = RadarRenderer::new();
    renderer.set_verbosity(9);
    renderer.set_status("WIFI CONNECTED");
    assert_eq!(
        renderer.overlay_layout(0),
        vec![
            item(OverlayText::Verbosity, 296, 13, TextStyle::Compact),
            item(OverlayText::Clock, 5, 13, TextStyle::Bright),
            item(OverlayText::Status, 5, 25, TextStyle::Compact),
            item(OverlayText::IpAddress, 5, 37, TextStyle::Compact),
            item(OverlayText::FramesPerSecond, 5, 49, TextStyle::Compact),
        ]
    );
}

#[test]
fn overlay_while_connecting() {
    let mut renderer = RadarRenderer::new();
    renderer.set_verbosity(7);
    renderer.set_status("[CONNECTING]...");
    assert!(renderer.status_is_connecting());
    assert_eq!(
        renderer.overlay_layout(0),
        vec![
            item(OverlayText::Verbosity, 296, 13, TextStyle::Compact),
            item(OverlayText::Clock, 5, 13, TextStyle::Bright),
            item(OverlayText::IpAddress, 5, 25, TextStyle::Compact),
            item(OverlayText::Status, 118, 85, TextStyle::Compact),
        ]
    );
    assert_eq!(renderer.overlay_layout(2)[2], item(OverlayText::Status, 5, 25, TextStyle::Compact));
    renderer.set_status("[CONNECTING]");
    assert!(!renderer.status_is_connecting());
}

#[test]
fn fps_line() {
    assert_eq!(fps_text(0), "FPS: 0");
    assert_eq!(fps_text(59), "FPS: 59");
    assert_eq!(fps_text(u32::MAX), "FPS: 4294967295");
}

#[test]
fn notice_box_is_centred() {
    let mut renderer = RadarRenderer::new();
    renderer.set_notice("CONNECTING...");
    let expected = NoticeBox { left: 113, top: 68, width: 94, height: 34, text_x: 121, text_y: 89 };
    assert_eq!(renderer.notice_box(), Some(expected));
    renderer.set_notice("ABCDEFGHIJKLMNOPQRSTUVWXYZABCDEFGHIJKLMNOPQRSTUV");
    let wide = renderer.notice_box().unwrap();
    assert_eq!((wide.left, wide.width), (8, 304));
    renderer.set_notice("ÄÄÄÄÄÄÄÄÄÄÄÄÄÄÄÄÄÄÄÄÄÄÄÄ");
    let umlauts = renderer.notice_box().unwrap();
    assert_eq!((umlauts.left, umlauts.width), (80, 160));
}

#[test]
fn city_labels_avoid_overlap() {
    let marks = [
        CityMark { x: 100, y: 50, name_chars: 6 },
        CityMark { x: 102, y: 52, name_chars: 4 },
        CityMark { x: 100, y: 80, name_chars: 5 },
        CityMark { x: 400, y: -20, name_chars: 10 },
    ];
    let labels = place_city_labels(&marks);
    assert_eq!(labels.len(), 4);
    assert_eq!(labels[0], Some(LabelBox { left: 104, top: 43, right: 140, bottom: 53 }));
    assert_eq!(labels[1], None);
    assert_eq!(labels[2], Some(LabelBox { left: 104, top: 73, right: 134, bottom: 83 }));
    assert_eq!(labels[3], Some(LabelBox { left: 259, top: 0, right: 319, bottom: 10 }));
    for label in labels.iter().flatten() {
        assert!(label.left >= 1 && label.right <= WIDTH as i32 - 1);
        assert!(label.top >= 0 && label.bottom <= HEIGHT as i32 - 1);
    }
}

#[test]
fn city_labels_limited_to_slots() {
    let marks: Vec<CityMark> = (0..70).map(|i| CityMark { x: (i % 10) * 40, y: (i / 10) * 30, name_chars: 0 }).collect();
    let labels = place_city_labels(&marks);
    assert_eq!(labels.iter().flatten().count(), 64);
    assert!(labels[69].is_none());
}
