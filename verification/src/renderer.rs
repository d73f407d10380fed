//! What the radar screen shows: the texts of the overlay and where they go,
//! the notice box, the city labels, and the colours of the aircraft.

use vstd::prelude::*;
use vstd::string::StrSliceExecFns;

use crate::clock::CLOCK_CAPACITY;
use crate::helpers::{lemma_encode_utf8_concat, utf8_len};
use crate::text::{
    ascii_only, bounded_text, byte_len, decimal_chars, lemma_ascii_concat, lemma_ascii_utf8_len,
    lemma_decimal_chars, push_char, push_decimal, pushed_within,
};

verus! {

/// A colour of the RGB565 panel: 5 bits of red, 6 of green, 5 of blue.
#[derive(PartialEq, Eq, Structural, Clone, Copy, Debug)]
pub struct PanelColor {
    pub red: u8,
    pub green: u8,
    pub blue: u8,
}

/// A panel colour from channel values; bits beyond a channel's width are
/// dropped, as the panel's 16-bit colour format does.
pub fn panel_color(red: u8, green: u8, blue: u8) -> (color: PanelColor)
    ensures
        color == (PanelColor { red: red & 0x1f, green: green & 0x3f, blue: blue & 0x1f }),
{
    PanelColor { red: red & 0x1f, green: green & 0x3f, blue: blue & 0x1f }
}

/// The panel channels of a `0xRRGGBB` colour: the top 5, 6 and 5 bits of its
/// red, green and blue bytes.
pub open spec fn panel_channels(hex: u32) -> (u8, u8, u8) {
    (
        (((hex >> 16u32) & 0xff) as u8) >> 3u8,
        (((hex >> 8u32) & 0xff) as u8) >> 2u8,
        ((hex & 0xff) as u8) >> 3u8,
    )
}

/// Convert a standard `0xRRGGBB` color into the panel's RGB565 format.
pub fn rgb565(hex: u32) -> (color: PanelColor)
    ensures
        (color.red, color.green, color.blue) == panel_channels(hex),
{
    let red = ((hex >> 16u32) & 0xff) as u8;
    let green = ((hex >> 8u32) & 0xff) as u8;
    let blue = (hex & 0xff) as u8;
    assert((red >> 3u8) & 0x1f == red >> 3u8) by (bit_vector);
    assert((green >> 2u8) & 0x3f == green >> 2u8) by (bit_vector);
    assert((blue >> 3u8) & 0x1f == blue >> 3u8) by (bit_vector);
    panel_color(red >> 3u8, green >> 2u8, blue >> 3u8)
}

/// The `0xRRGGBB` base colour of an emitter category: unknown, no category,
/// light, small, large, high-vortex large, heavy, high performance and
/// rotorcraft; categories past the table use the colour of unknown.
pub open spec fn category_hex(category: u8) -> u32 {
    if category == 1 {
        0x00FF50
    } else if category == 2 {
        0x00C8FF
    } else if category == 3 {
        0x2878FF
    } else if category == 4 {
        0xFF8C00
    } else if category == 5 {
        0xFF4000
    } else if category == 6 {
        0xDC00A0
    } else if category == 7 {
        0xFFE000
    } else if category == 8 {
        0x00E0B0
    } else {
        0xB0B0B0
    }
}

/// The channels of an aircraft marker: the category colour, each channel
/// lowered (not below zero) by the two low bits of the identifier, so that
/// neighbouring aircraft of one category differ slightly.
pub open spec fn aircraft_channels(category: u8, id: u32) -> (u8, u8, u8) {
    let base = panel_channels(category_hex(category));
    let variation = (id & 3) as u8;
    (
        base.0.saturating_sub(variation),
        base.1.saturating_sub(variation),
        base.2.saturating_sub(variation),
    )
}

/// Colour of the marker of an aircraft of `category` with identifier `id`.
pub fn aircraft_color(category: u8, id: u32) -> (color: PanelColor)
    ensures
        (color.red, color.green, color.blue) == aircraft_channels(category, id),
{
    let palette: [u32; 9] = [
        0xB0B0B0,
        0x00FF50,
        0x00C8FF,
        0x2878FF,
        0xFF8C00,
        0xFF4000,
        0xDC00A0,
        0xFFE000,
        0x00E0B0,
    ];
    let hex = if (category as usize) < palette.len() {
        palette[category as usize]
    } else {
        palette[0]
    };
    assert(hex == category_hex(category));
    let base = rgb565(hex);
    let variation = (id & 3) as u8;
    let red = base.red.saturating_sub(variation);
    let green = base.green.saturating_sub(variation);
    let blue = base.blue.saturating_sub(variation);
    proof {
        let channels = panel_channels(hex);
        let r = channels.0;
        let g = channels.1;
        let b = channels.2;
        assert(r < 32 && g < 64 && b < 32) by (bit_vector)
            requires
                r == (((hex >> 16u32) & 0xff) as u8) >> 3u8,
                g == (((hex >> 8u32) & 0xff) as u8) >> 2u8,
                b == ((hex & 0xff) as u8) >> 3u8,
        ;
        assert(red & 0x1f == red) by (bit_vector)
            requires
                red <= r,
                r < 32,
        ;
        assert(green & 0x3f == green) by (bit_vector)
            requires
                green <= g,
                g < 64,
        ;
        assert(blue & 0x1f == blue) by (bit_vector)
            requires
                blue <= b,
                b < 32,
        ;
    }
    panel_color(red, green, blue)
}


/// Logical framebuffer width in pixels.
pub const WIDTH: usize = 320;

/// Logical framebuffer height in pixels.
pub const HEIGHT: usize = 170;

/// Capacity, in bytes, of the connection status line.
pub const STATUS_CAPACITY: usize = 32;

/// Capacity, in bytes, of the address line.
pub const IP_CAPACITY: usize = 24;

/// Capacity, in bytes, of the notice shown in the middle of the screen.
pub const NOTICE_CAPACITY: usize = 48;

/// Highest verbosity level.
pub const MAX_VERBOSITY: u8 = 9;

/// The texts and verbosity that the radar screen shows.
pub struct RendererView {
    pub status: Seq<char>,
    pub ip_address: Seq<char>,
    pub verbosity: u8,
    pub clock: Seq<char>,
    pub notice: Seq<char>,
}

/// The textual state of the radar screen: status line, address line,
/// verbosity level, clock and notice. Each text is kept within the capacity
/// of its line.
pub struct RadarRenderer {
    status: String,
    ip_address: String,
    verbosity: u8,
    clock: String,
    notice: String,
}

impl RendererView {
    /// Every text fits its line and the verbosity is a level.
    pub open spec fn fits(self) -> bool {
        &&& utf8_len(self.status) <= STATUS_CAPACITY
        &&& utf8_len(self.ip_address) <= IP_CAPACITY
        &&& utf8_len(self.clock) <= CLOCK_CAPACITY
        &&& utf8_len(self.notice) <= NOTICE_CAPACITY
        &&& self.verbosity <= MAX_VERBOSITY
    }
}

impl View for RadarRenderer {
    type V = RendererView;

    closed spec fn view(&self) -> RendererView {
        RendererView {
            status: self.status@,
            ip_address: self.ip_address@,
            verbosity: self.verbosity,
            clock: self.clock@,
            notice: self.notice@,
        }
    }
}

/// The characters `IP: ` that start the address line.
pub open spec fn ip_prefix() -> Seq<char> {
    seq!['I', 'P', ':', ' ']
}

/// The address line for an IPv4 address given by its four octets.
pub open spec fn ip_octets_text(octets: [u8; 4]) -> Seq<char> {
    ip_prefix() + decimal_chars(octets[0] as nat) + seq!['.'] + decimal_chars(octets[1] as nat)
        + seq!['.'] + decimal_chars(octets[2] as nat) + seq!['.'] + decimal_chars(
        octets[3] as nat,
    )
}

impl RadarRenderer {
    #[verifier::type_invariant]
    spec fn within_capacity(self) -> bool {
        &&& utf8_len(self.status@) <= STATUS_CAPACITY
        &&& utf8_len(self.ip_address@) <= IP_CAPACITY
        &&& utf8_len(self.clock@) <= CLOCK_CAPACITY
        &&& utf8_len(self.notice@) <= NOTICE_CAPACITY
        &&& self.verbosity <= MAX_VERBOSITY
    }

    /// A screen with empty texts at verbosity 3.
    pub fn new() -> (renderer: Self)
        ensures
            renderer@.status == Seq::<char>::empty(),
            renderer@.ip_address == Seq::<char>::empty(),
            renderer@.verbosity == 3,
            renderer@.clock == Seq::<char>::empty(),
            renderer@.notice == Seq::<char>::empty(),
            renderer@.fits(),
    {
        proof {
            lemma_ascii_utf8_len(Seq::<char>::empty());
        }
        RadarRenderer {
            status: String::new(),
            ip_address: String::new(),
            verbosity: 3,
            clock: String::new(),
            notice: String::new(),
        }
    }

    /// Shows `ip` on the address line after `IP: `; when the whole line
    /// would not fit, only `IP: ` is kept.
    pub fn set_ip(&mut self, ip: &str)
        ensures
            final(self)@ == (RendererView {
                ip_address: pushed_within(ip_prefix(), ip@, IP_CAPACITY as nat),
                ..old(self)@
            }),
            final(self)@.fits(),
    {
        proof {
            use_type_invariant(&*self);
        }
        let mut line = String::new();
        push_char(&mut line, 'I');
        push_char(&mut line, 'P');
        push_char(&mut line, ':');
        push_char(&mut line, ' ');
        proof {
            assert(line@ =~= ip_prefix());
            assert(ascii_only(ip_prefix()));
            lemma_ascii_utf8_len(ip_prefix());
        }
        if byte_len(ip) <= IP_CAPACITY - 4 {
            line.append(ip);
            proof {
                lemma_encode_utf8_concat(ip_prefix(), ip@);
            }
        }
        self.ip_address = line;
    }

    /// Shows an IPv4 address, written as four decimal octets, on the address
    /// line; such a line always fits.
    pub fn set_ip_octets(&mut self, octets: [u8; 4])
        ensures
            final(self)@ == (RendererView { ip_address: ip_octets_text(octets), ..old(self)@ }),
            final(self)@.fits(),
    {
        proof {
            use_type_invariant(&*self);
        }
        let mut line = String::new();
        push_char(&mut line, 'I');
        push_char(&mut line, 'P');
        push_char(&mut line, ':');
        push_char(&mut line, ' ');
        push_decimal(&mut line, octets[0] as u32);
        push_char(&mut line, '.');
        push_decimal(&mut line, octets[1] as u32);
        push_char(&mut line, '.');
        push_decimal(&mut line, octets[2] as u32);
        push_char(&mut line, '.');
        push_decimal(&mut line, octets[3] as u32);
        proof {
            let d0 = decimal_chars(octets[0] as nat);
            let d1 = decimal_chars(octets[1] as nat);
            let d2 = decimal_chars(octets[2] as nat);
            let d3 = decimal_chars(octets[3] as nat);
            lemma_decimal_chars(octets[0] as nat);
            lemma_decimal_chars(octets[1] as nat);
            lemma_decimal_chars(octets[2] as nat);
            lemma_decimal_chars(octets[3] as nat);
            assert(line@ =~= ip_octets_text(octets));
            assert(ascii_only(ip_prefix()));
            assert(ascii_only(seq!['.']));
            let a1 = ip_prefix() + d0;
            lemma_ascii_concat(ip_prefix(), d0);
            let a2 = a1 + seq!['.'];
            lemma_ascii_concat(a1, seq!['.']);
            let a3 = a2 + d1;
            lemma_ascii_concat(a2, d1);
            let a4 = a3 + seq!['.'];
            lemma_ascii_concat(a3, seq!['.']);
            let a5 = a4 + d2;
            lemma_ascii_concat(a4, d2);
            let a6 = a5 + seq!['.'];
            lemma_ascii_concat(a5, seq!['.']);
            lemma_ascii_concat(a6, d3);
            lemma_ascii_utf8_len(line@);
        }
        self.ip_address = line;
    }

    /// Shows `status` on the status line, or clears it when `status` does
    /// not fit.
    pub fn set_status(&mut self, status: &str)
        ensures
            final(self)@ == (RendererView {
                status: pushed_within(Seq::empty(), status@, STATUS_CAPACITY as nat),
                ..old(self)@
            }),
            final(self)@.fits(),
    {
        proof {
            use_type_invariant(&*self);
        }
        self.status = bounded_text(status, STATUS_CAPACITY);
    }

    /// Sets the verbosity level, capped at `MAX_VERBOSITY`.
    pub fn set_verbosity(&mut self, verbosity: u8)
        ensures
            final(self)@ == (RendererView {
                verbosity: if verbosity < MAX_VERBOSITY { verbosity } else { MAX_VERBOSITY },
                ..old(self)@
            }),
            final(self)@.fits(),
    {
        proof {
            use_type_invariant(&*self);
        }
        self.verbosity = if verbosity < MAX_VERBOSITY {
            verbosity
        } else {
            MAX_VERBOSITY
        };
    }

    /// Shows a new clock text.
    pub fn set_clock(&mut self, value: String)
        requires
            utf8_len(value@) <= CLOCK_CAPACITY,
        ensures
            final(self)@ == (RendererView { clock: value@, ..old(self)@ }),
            final(self)@.fits(),
    {
        proof {
            use_type_invariant(&*self);
        }
        self.clock = value;
    }

    /// Shows `notice` in the notice box, or removes the notice when `notice`
    /// does not fit.
    pub fn set_notice(&mut self, notice: &str)
        ensures
            final(self)@ == (RendererView {
                notice: pushed_within(Seq::empty(), notice@, NOTICE_CAPACITY as nat),
                ..old(self)@
            }),
            final(self)@.fits(),
    {
        proof {
            use_type_invariant(&*self);
        }
        self.notice = bounded_text(notice, NOTICE_CAPACITY);
    }

    /// The status line.
    pub fn status(&self) -> (status: &str)
        ensures
            status@ == self@.status,
    {
        self.status.as_str()
    }

    /// The address line.
    pub fn ip_address(&self) -> (ip_address: &str)
        ensures
            ip_address@ == self@.ip_address,
    {
        self.ip_address.as_str()
    }

    /// The verbosity level.
    pub fn verbosity(&self) -> (verbosity: u8)
        ensures
            verbosity == self@.verbosity,
    {
        self.verbosity
    }

    /// The clock text.
    pub fn clock(&self) -> (clock: &str)
        ensures
            clock@ == self@.clock,
    {
        self.clock.as_str()
    }

    /// The notice text.
    pub fn notice(&self) -> (notice: &str)
        ensures
            notice@ == self@.notice,
    {
        self.notice.as_str()
    }
}


/// The status text shown while the device is still connecting.
pub open spec fn connecting_status() -> Seq<char> {
    seq!['[', 'C', 'O', 'N', 'N', 'E', 'C', 'T', 'I', 'N', 'G', ']', '.', '.', '.']
}

/// Which text an overlay line shows.
#[derive(PartialEq, Eq, Structural, Clone, Copy, Debug)]
pub enum OverlayText {
    Verbosity,
    Clock,
    Status,
    IpAddress,
    FramesPerSecond,
}

/// The two colours of overlay text: bright green for the clock, a dimmer
/// green for the rest.
#[derive(PartialEq, Eq, Structural, Clone, Copy, Debug)]
pub enum TextStyle {
    Bright,
    Compact,
}

/// One line of the overlay: what it shows, where its baseline starts, and
/// in which colour.
#[derive(PartialEq, Eq, Structural, Clone, Copy, Debug)]
pub struct OverlayItem {
    pub text: OverlayText,
    pub x: i32,
    pub y: i32,
    pub style: TextStyle,
}

/// The screen is still waiting for its first aircraft while connecting.
pub open spec fn is_connecting(view: RendererView, flight_count: nat) -> bool {
    flight_count == 0 && view.status == connecting_status()
}

/// The lines of the overlay, in drawing order. The verbosity level sits in
/// the top right corner and the clock in the top left; below the clock come
/// the status (from verbosity 6, unless connecting), the address (from 7)
/// and the frame rate (from 8), 12 pixels apart; while connecting, the
/// status is shown in the middle of the screen instead.
pub open spec fn overlay_items(view: RendererView, flight_count: nat) -> Seq<OverlayItem> {
    let connecting = is_connecting(view, flight_count);
    let top = seq![
        OverlayItem { text: OverlayText::Verbosity, x: 296, y: 13, style: TextStyle::Compact },
        OverlayItem { text: OverlayText::Clock, x: 5, y: 13, style: TextStyle::Bright },
    ];
    let status_line: Seq<OverlayItem> = if view.verbosity >= 6 && !connecting {
        seq![OverlayItem { text: OverlayText::Status, x: 5, y: 25, style: TextStyle::Compact }]
    } else {
        Seq::empty()
    };
    let y1 = 25 + 12 * status_line.len();
    let ip_line: Seq<OverlayItem> = if view.verbosity >= 7 {
        seq![
            OverlayItem { text: OverlayText::IpAddress, x: 5, y: y1 as i32, style: TextStyle::Compact },
        ]
    } else {
        Seq::empty()
    };
    let y2 = y1 + 12 * ip_line.len();
    let fps_line: Seq<OverlayItem> = if view.verbosity >= 8 {
        seq![
            OverlayItem {
                text: OverlayText::FramesPerSecond,
                x: 5,
                y: y2 as i32,
                style: TextStyle::Compact,
            },
        ]
    } else {
        Seq::empty()
    };
    let centre_status: Seq<OverlayItem> = if connecting {
        seq![OverlayItem { text: OverlayText::Status, x: 118, y: 85, style: TextStyle::Compact }]
    } else {
        Seq::empty()
    };
    top + status_line + ip_line + fps_line + centre_status
}

/// The notice box: a filled rectangle and the baseline of its text.
#[derive(PartialEq, Eq, Structural, Clone, Copy, Debug)]
pub struct NoticeBox {
    pub left: i32,
    pub top: i32,
    pub width: u32,
    pub height: u32,
    pub text_x: i32,
    pub text_y: i32,
}

/// Width of the notice box for a notice of `chars` characters: six pixels a
/// character plus a margin of eight on each side, at most the screen width
/// less eight.
pub open spec fn notice_width(chars: nat) -> nat {
    if chars * 6 + 16 < WIDTH - 8 {
        chars * 6 + 16
    } else {
        (WIDTH - 8) as nat
    }
}

/// The notice box for a notice, horizontally centred, or none for an empty
/// notice.
pub open spec fn notice_box_for(notice: Seq<char>) -> Option<NoticeBox> {
    if notice.len() == 0 {
        None
    } else {
        let width = notice_width(notice.len());
        let left = ((WIDTH - width) / 2) as int;
        Some(
            NoticeBox {
                left: left as i32,
                top: 68,
                width: width as u32,
                height: 34,
                text_x: (left + 8) as i32,
                text_y: 89,
            },
        )
    }
}

/// Where a city label goes: the dot of a city at `x`, `y` and the number of
/// characters of its name.
#[derive(PartialEq, Eq, Structural, Clone, Copy, Debug)]
pub struct CityMark {
    pub x: i32,
    pub y: i32,
    pub name_chars: usize,
}

/// The rectangle a city label covers; its text starts at `left`, `bottom`.
#[derive(PartialEq, Eq, Structural, Clone, Copy, Debug)]
pub struct LabelBox {
    pub left: i32,
    pub top: i32,
    pub right: i32,
    pub bottom: i32,
}

/// `value` limited to the range `low ..= high`.
pub open spec fn clamped(value: int, low: int, high: int) -> int {
    if value < low {
        low
    } else if value > high {
        high
    } else {
        value
    }
}

/// The box of a city's label: right of and below the dot by 4 and 3
/// pixels, six pixels a character wide, ten high, moved inside the screen.
pub open spec fn label_box(mark: CityMark) -> LabelBox {
    let width = if mark.name_chars * 6 < WIDTH - 2 {
        mark.name_chars * 6
    } else {
        (WIDTH - 2) as int
    };
    let left = clamped(mark.x + 4, 1, WIDTH - width - 1);
    let bottom = clamped(mark.y + 3, 10, HEIGHT - 1);
    LabelBox {
        left: left as i32,
        top: (bottom - 10) as i32,
        right: (left + width) as i32,
        bottom: bottom as i32,
    }
}

/// Two label boxes share some area.
pub open spec fn boxes_overlap(a: LabelBox, b: LabelBox) -> bool {
    a.left < b.right && a.right > b.left && a.top < b.bottom && a.bottom > b.top
}

/// `candidate` overlaps some box of `placed`.
pub open spec fn overlaps_any(candidate: LabelBox, placed: Seq<LabelBox>) -> bool {
    exists|i: int| 0 <= i < placed.len() && boxes_overlap(candidate, #[trigger] placed[i])
}

/// The labels placed for the first `n` marks, in order.
pub open spec fn placed_labels(marks: Seq<CityMark>, n: int) -> Seq<LabelBox>
    decreases n, 0int,
{
    if n <= 0 {
        Seq::empty()
    } else {
        match label_choice(marks, n - 1) {
            Some(b) => placed_labels(marks, n - 1).push(b),
            None => placed_labels(marks, n - 1),
        }
    }
}

/// The label of mark `n`, given the labels placed before it: its box when it
/// overlaps none of them and fewer than `MAX_CITIES` were placed.
pub open spec fn label_choice(marks: Seq<CityMark>, n: int) -> Option<LabelBox>
    decreases n, 1int,
{
    if n < 0 {
        None
    } else {
        let candidate = label_box(marks[n]);
        let placed = placed_labels(marks, n);
        if !overlaps_any(candidate, placed) && placed.len() < crate::flight::MAX_CITIES {
            Some(candidate)
        } else {
            None
        }
    }
}


/// The overlay text of the verbosity level: `V:` and the level.
pub open spec fn verbosity_text_for(verbosity: u8) -> Seq<char> {
    seq!['V', ':'] + decimal_chars(verbosity as nat)
}

/// The overlay text of the frame rate: `FPS: ` and the whole frames per
/// second.
pub open spec fn fps_text_for(fps: u32) -> Seq<char> {
    seq!['F', 'P', 'S', ':', ' '] + decimal_chars(fps as nat)
}

/// The frame rate line of the overlay.
pub fn fps_text(fps: u32) -> (text: String)
    ensures
        text@ == fps_text_for(fps),
{
    let mut text = String::new();
    push_char(&mut text, 'F');
    push_char(&mut text, 'P');
    push_char(&mut text, 'S');
    push_char(&mut text, ':');
    push_char(&mut text, ' ');
    push_decimal(&mut text, fps);
    assert(text@ =~= fps_text_for(fps));
    text
}

impl RadarRenderer {
    /// The status line reads `[CONNECTING]...`.
    pub fn status_is_connecting(&self) -> (connecting: bool)
        ensures
            connecting == (self@.status == connecting_status()),
    {
        let expected: [u8; 15] = [
            0x5b, 0x43, 0x4f, 0x4e, 0x4e, 0x45, 0x43, 0x54, 0x49, 0x4e, 0x47, 0x5d, 0x2e, 0x2e, 0x2e,
        ];
        let bytes = self.status.as_str().as_bytes();
        let ghost status = self@.status;
        let ghost target = connecting_status();
        proof {
            vstd::utf8::is_ascii_chars_encode_utf8(target);
            vstd::utf8::encode_utf8_decode_utf8(status);
            vstd::utf8::encode_utf8_decode_utf8(target);
            assert(vstd::utf8::encode_utf8(target) =~= expected@);
        }
        if bytes.len() != 15 {
            return false;
        }
        let mut i: usize = 0;
        while i < 15
            invariant
                i <= 15,
                bytes@.len() == 15,
                bytes@ == vstd::utf8::encode_utf8(status),
                vstd::utf8::encode_utf8(target) == expected@,
                status == self@.status,
                target == connecting_status(),
                forall|k: int| 0 <= k < i ==> bytes@[k] == expected@[k],
            decreases 15 - i,
        {
            if bytes[i] != expected[i] {
                assert(status != target);
                return false;
            }
            i = i + 1;
        }
        assert(bytes@ =~= expected@);
        true
    }

    /// The lines of the overlay, given how many aircraft are tracked.
    pub fn overlay_layout(&self, flight_count: usize) -> (items: Vec<OverlayItem>)
        ensures
            items@ == overlay_items(self@, flight_count as nat),
    {
        proof {
            use_type_invariant(self);
        }
        let connecting = flight_count == 0 && self.status_is_connecting();
        let mut items: Vec<OverlayItem> = Vec::new();
        items.push(
            OverlayItem { text: OverlayText::Verbosity, x: 296, y: 13, style: TextStyle::Compact },
        );
        items.push(OverlayItem { text: OverlayText::Clock, x: 5, y: 13, style: TextStyle::Bright });
        let mut line_y: i32 = 25;
        if self.verbosity >= 6 && !connecting {
            items.push(
                OverlayItem { text: OverlayText::Status, x: 5, y: line_y, style: TextStyle::Compact },
            );
            line_y = line_y + 12;
        }
        if self.verbosity >= 7 {
            items.push(
                OverlayItem {
                    text: OverlayText::IpAddress,
                    x: 5,
                    y: line_y,
                    style: TextStyle::Compact,
                },
            );
            line_y = line_y + 12;
        }
        if self.verbosity >= 8 {
            items.push(
                OverlayItem {
                    text: OverlayText::FramesPerSecond,
                    x: 5,
                    y: line_y,
                    style: TextStyle::Compact,
                },
            );
        }
        if connecting {
            items.push(
                OverlayItem { text: OverlayText::Status, x: 118, y: 85, style: TextStyle::Compact },
            );
        }
        assert(items@ =~= overlay_items(self@, flight_count as nat));
        items
    }

    /// The overlay text of the current verbosity level.
    pub fn verbosity_text(&self) -> (text: String)
        ensures
            text@ == verbosity_text_for(self@.verbosity),
    {
        let mut text = String::new();
        push_char(&mut text, 'V');
        push_char(&mut text, ':');
        push_decimal(&mut text, self.verbosity as u32);
        assert(text@ =~= verbosity_text_for(self@.verbosity));
        text
    }

    /// The notice box, when there is a notice.
    pub fn notice_box(&self) -> (notice_box: Option<NoticeBox>)
        ensures
            notice_box == notice_box_for(self@.notice),
    {
        proof {
            use_type_invariant(self);
            vstd::utf8::encode_utf8_decode_utf8(self@.notice);
            lemma_chars_at_most_bytes(self@.notice);
        }
        let chars = self.notice.as_str().unicode_len();
        if chars == 0 {
            return None;
        }
        let wanted = chars as u32 * 6 + 16;
        let width: u32 = if wanted < WIDTH as u32 - 8 {
            wanted
        } else {
            WIDTH as u32 - 8
        };
        let left = ((WIDTH as u32 - width) / 2) as i32;
        Some(NoticeBox { left, top: 68, width, height: 34, text_x: left + 8, text_y: 89 })
    }

    /// Cities are drawn from verbosity 2 on.
    pub fn cities_visible(&self) -> (visible: bool)
        ensures
            visible == (self@.verbosity >= 2),
    {
        self.verbosity >= 2
    }

    /// An aircraft's call sign is drawn from verbosity 3 on, when it has one.
    pub fn aircraft_label_visible(&self, name: &str) -> (visible: bool)
        ensures
            visible == (self@.verbosity >= 3 && name@.len() > 0),
    {
        self.verbosity >= 3 && !name.is_empty()
    }
}

/// A text has at most as many characters as bytes.
pub proof fn lemma_chars_at_most_bytes(chars: Seq<char>)
    ensures
        chars.len() <= utf8_len(chars),
    decreases chars.len(),
{
    if chars.len() > 0 {
        lemma_chars_at_most_bytes(chars.drop_first());
        let first = vstd::utf8::encode_scalar(chars[0] as u32);
        assert(first.len() >= 1) by {
            reveal(vstd::utf8::encode_scalar);
        }
    }
}

/// The panel channels of a `0xRRGGBB` colour by plain arithmetic.
proof fn lemma_panel_channels_arith(hex: u32)
    ensures
        panel_channels(hex).0 == hex / 0x10000 % 0x100 / 8,
        panel_channels(hex).1 == hex / 0x100 % 0x100 / 4,
        panel_channels(hex).2 == hex % 0x100 / 8,
{
    let channels = panel_channels(hex);
    let (r, g, b) = channels;
    assert(r == hex / 0x10000 % 0x100 / 8 && g == hex / 0x100 % 0x100 / 4 && b == hex % 0x100
        / 8) by (bit_vector)
        requires
            r == (((hex >> 16u32) & 0xff) as u8) >> 3u8,
            g == (((hex >> 8u32) & 0xff) as u8) >> 2u8,
            b == ((hex & 0xff) as u8) >> 3u8,
    ;
}

/// The channel `value` lowered by `amount`, stopping at zero.
pub open spec fn lowered(value: u8, amount: nat) -> u8 {
    if value >= amount {
        (value - amount) as u8
    } else {
        0
    }
}

/// Law of the marker colours. The base colour of category `c` is entry `c`
/// of the palette grey, green, sky blue, blue, orange, red-orange, magenta,
/// yellow, turquoise (`0xB0B0B0`, `0x00FF50`, `0x00C8FF`, `0x2878FF`,
/// `0xFF8C00`, `0xFF4000`, `0xDC00A0`, `0xFFE000`, `0x00E0B0`), grey beyond
/// it; on the panel these are the channel triples listed below; and each
/// channel of a marker is lowered, not below zero, by the identifier modulo
/// four.
pub proof fn lemma_aircraft_palette(category: u8, id: u32)
    ensures
        ({
            let palette = seq![
                0xB0B0B0u32,
                0x00FF50u32,
                0x00C8FFu32,
                0x2878FFu32,
                0xFF8C00u32,
                0xFF4000u32,
                0xDC00A0u32,
                0xFFE000u32,
                0x00E0B0u32,
            ];
            category_hex(category) == if category < 9 {
                palette[category as int]
            } else {
                0xB0B0B0u32
            }
        }),
        ({
            let channels = seq![
                (22u8, 44u8, 22u8),
                (0u8, 63u8, 10u8),
                (0u8, 50u8, 31u8),
                (5u8, 30u8, 31u8),
                (31u8, 35u8, 0u8),
                (31u8, 16u8, 0u8),
                (27u8, 0u8, 20u8),
                (31u8, 56u8, 0u8),
                (0u8, 56u8, 22u8),
            ];
            let base = if category < 9 {
                channels[category as int]
            } else {
                channels[0]
            };
            let amount = (id % 4) as nat;
            aircraft_channels(category, id) == (
                lowered(base.0, amount),
                lowered(base.1, amount),
                lowered(base.2, amount),
            )
        }),
{
    lemma_panel_channels_arith(0xB0B0B0u32);
    lemma_panel_channels_arith(0x00FF50u32);
    lemma_panel_channels_arith(0x00C8FFu32);
    lemma_panel_channels_arith(0x2878FFu32);
    lemma_panel_channels_arith(0xFF8C00u32);
    lemma_panel_channels_arith(0xFF4000u32);
    lemma_panel_channels_arith(0xDC00A0u32);
    lemma_panel_channels_arith(0xFFE000u32);
    lemma_panel_channels_arith(0x00E0B0u32);
    assert(id & 3 == id % 4) by (bit_vector);
}

/// Some overlay line shows `text`.
pub open spec fn overlay_shows(items: Seq<OverlayItem>, text: OverlayText) -> bool {
    exists|i: int| 0 <= i < items.len() && #[trigger] items[i].text == text
}

/// No two overlay lines show `text`.
pub open spec fn overlay_shows_at_most_once(items: Seq<OverlayItem>, text: OverlayText) -> bool {
    forall|i: int, j: int|
        0 <= i < items.len() && 0 <= j < items.len() && #[trigger] items[i].text == text
            && #[trigger] items[j].text == text ==> i == j
}

/// Law of the overlay lines: the verbosity level and the clock are always
/// shown; the frame rate is shown from verbosity 8 and the address from
/// verbosity 7; the status is shown from verbosity 6, and always while the
/// screen is still connecting; and no text is shown twice.
pub proof fn lemma_overlay_lines(view: RendererView, flight_count: nat)
    ensures
        overlay_shows(overlay_items(view, flight_count), OverlayText::Verbosity),
        overlay_shows(overlay_items(view, flight_count), OverlayText::Clock),
        overlay_shows(overlay_items(view, flight_count), OverlayText::FramesPerSecond) <==> view.verbosity
            >= 8,
        overlay_shows(overlay_items(view, flight_count), OverlayText::IpAddress) <==> view.verbosity
            >= 7,
        overlay_shows(overlay_items(view, flight_count), OverlayText::Status) <==> (view.verbosity
            >= 6 || (flight_count == 0 && view.status == connecting_status())),
        overlay_shows_at_most_once(overlay_items(view, flight_count), OverlayText::Verbosity),
        overlay_shows_at_most_once(overlay_items(view, flight_count), OverlayText::Clock),
        overlay_shows_at_most_once(overlay_items(view, flight_count), OverlayText::FramesPerSecond),
        overlay_shows_at_most_once(overlay_items(view, flight_count), OverlayText::IpAddress),
        overlay_shows_at_most_once(overlay_items(view, flight_count), OverlayText::Status),
{
    let items = overlay_items(view, flight_count);
    let connecting = flight_count == 0 && view.status == connecting_status();
    let shows_status = view.verbosity >= 6 && !connecting;
    let n_status: int = if shows_status { 1 } else { 0 };
    let n_ip: int = if view.verbosity >= 7 { 1 } else { 0 };
    let n_fps: int = if view.verbosity >= 8 { 1 } else { 0 };
    let n_centre: int = if connecting { 1 } else { 0 };
    assert(items.len() == 2 + n_status + n_ip + n_fps + n_centre);
    assert(items[0].text == OverlayText::Verbosity);
    assert(items[1].text == OverlayText::Clock);
    assert forall|i: int| 0 <= i < items.len() implies #[trigger] items[i].text == if i == 0 {
        OverlayText::Verbosity
    } else if i == 1 {
        OverlayText::Clock
    } else if i < 2 + n_status {
        OverlayText::Status
    } else if i < 2 + n_status + n_ip {
        OverlayText::IpAddress
    } else if i < 2 + n_status + n_ip + n_fps {
        OverlayText::FramesPerSecond
    } else {
        OverlayText::Status
    } by {}
    if view.verbosity >= 8 {
        assert(items[2 + n_status + n_ip].text == OverlayText::FramesPerSecond);
    }
    if view.verbosity >= 7 {
        assert(items[2 + n_status].text == OverlayText::IpAddress);
    }
    if shows_status {
        assert(items[2].text == OverlayText::Status);
    }
    if connecting {
        assert(items[2 + n_status + n_ip + n_fps].text == OverlayText::Status);
    }
}

/// Law of the notice box: it is centred on the screen, at most one pixel to
/// the left, and keeps a margin of at least four pixels on either side.
pub proof fn lemma_notice_box_centred(notice: Seq<char>)
    requires
        notice.len() > 0,
    ensures
        notice_box_for(notice) matches Some(b) && {
            &&& b.left >= 4
            &&& b.left + b.width <= WIDTH - 4
            &&& (b.left + b.width) - (WIDTH - (b.left + b.width)) >= 0
            &&& b.left - (WIDTH - (b.left + b.width)) <= 0
            &&& b.left - (WIDTH - (b.left + b.width)) >= -1
        },
{
}


/// Decides which city names get a label: in order, a city's label is drawn
/// at its box unless it would overlap a label already drawn or
/// `MAX_CITIES` labels are drawn already. The result tells, mark by mark,
/// the box of the drawn label.
pub fn place_city_labels(marks: &[CityMark]) -> (labels: Vec<Option<LabelBox>>)
    requires
        forall|i: int|
            0 <= i < marks@.len() ==> {
                &&& #[trigger] marks@[i].x <= i32::MAX - 4
                &&& marks@[i].y <= i32::MAX - 3
                &&& marks@[i].name_chars <= i32::MAX / 6
            },
    ensures
        labels@.len() == marks@.len(),
        forall|i: int| 0 <= i < marks@.len() ==> #[trigger] labels@[i] == label_choice(marks@, i),
{
    let mut placed: Vec<LabelBox> = Vec::new();
    let mut labels: Vec<Option<LabelBox>> = Vec::new();
    let mut n: usize = 0;
    while n < marks.len()
        invariant
            n <= marks@.len(),
            labels@.len() == n,
            placed@ == placed_labels(marks@, n as int),
            forall|i: int| 0 <= i < n ==> #[trigger] labels@[i] == label_choice(marks@, i),
            forall|i: int|
                0 <= i < marks@.len() ==> {
                    &&& #[trigger] marks@[i].x <= i32::MAX - 4
                    &&& marks@[i].y <= i32::MAX - 3
                    &&& marks@[i].name_chars <= i32::MAX / 6
                },
        decreases marks@.len() - n,
    {
        let mark = marks[n];
        assert(marks@[n as int].x <= i32::MAX - 4);
        let chars = mark.name_chars as i32;
        let width: i32 = if chars * 6 < WIDTH as i32 - 2 {
            chars * 6
        } else {
            WIDTH as i32 - 2
        };
        let wanted_left = mark.x + 4;
        let left_limit = WIDTH as i32 - width - 1;
        let left = if wanted_left < 1 {
            1
        } else if wanted_left > left_limit {
            left_limit
        } else {
            wanted_left
        };
        let wanted_bottom = mark.y + 3;
        let bottom = if wanted_bottom < 10 {
            10
        } else if wanted_bottom > HEIGHT as i32 - 1 {
            HEIGHT as i32 - 1
        } else {
            wanted_bottom
        };
        let candidate = LabelBox { left, top: bottom - 10, right: left + width, bottom };
        assert(candidate == label_box(mark));
        let mut overlaps = false;
        let mut k: usize = 0;
        while k < placed.len()
            invariant
                k <= placed@.len(),
                overlaps == exists|t: int| 0 <= t < k && boxes_overlap(candidate, #[trigger] placed@[t]),
            decreases placed@.len() - k,
        {
            let other = placed[k];
            if candidate.left < other.right && candidate.right > other.left && candidate.top
                < other.bottom && candidate.bottom > other.top {
                overlaps = true;
            }
            k = k + 1;
        }
        assert(k == placed@.len());
        assert(overlaps == overlaps_any(candidate, placed@));
        assert(candidate == label_box(marks@[n as int]));
        assert(label_choice(marks@, n as int) == if !overlaps && placed@.len()
            < crate::flight::MAX_CITIES {
            Some(candidate)
        } else {
            None
        });
        if !overlaps && placed.len() < crate::flight::MAX_CITIES {
            placed.push(candidate);
            labels.push(Some(candidate));
        } else {
            labels.push(None);
        }
        assert(placed@ =~= placed_labels(marks@, n + 1));
        n = n + 1;
    }
    labels
}

/// The label of mark `i`, once drawn, stays among the labels drawn for any
/// longer prefix of the marks.
proof fn lemma_label_stays_placed(marks: Seq<CityMark>, i: int, j: int)
    requires
        0 <= i < j <= marks.len(),
        label_choice(marks, i) is Some,
    ensures
        placed_labels(marks, j).contains(label_choice(marks, i).unwrap()),
    decreases j - i,
{
    if j == i + 1 {
        let placed = placed_labels(marks, j);
        assert(placed[placed.len() - 1] == label_choice(marks, i).unwrap());
    } else {
        lemma_label_stays_placed(marks, i, j - 1);
        let shorter = placed_labels(marks, j - 1);
        let w = choose|w: int| 0 <= w < shorter.len() && shorter[w] == label_choice(marks, i).unwrap();
        assert(placed_labels(marks, j)[w] == shorter[w]);
    }
}

/// Law of the city labels: no two drawn labels overlap, and every drawn
/// label lies on the screen, clear of its left and right edge pixel.
pub proof fn lemma_city_labels(marks: Seq<CityMark>)
    ensures
        forall|i: int, j: int|
            #![trigger label_choice(marks, i), label_choice(marks, j)]
            0 <= i < j < marks.len() && label_choice(marks, i) is Some && label_choice(
                marks,
                j,
            ) is Some ==> !boxes_overlap(
                label_choice(marks, i).unwrap(),
                label_choice(marks, j).unwrap(),
            ),
        forall|i: int|
            0 <= i < marks.len() && marks[i].x <= i32::MAX - 4 && marks[i].y <= i32::MAX - 3
                && marks[i].name_chars <= i32::MAX / 6 && (#[trigger] label_choice(marks, i)) is Some
                ==> {
                let b = label_choice(marks, i).unwrap();
                &&& 1 <= b.left <= b.right <= WIDTH - 1
                &&& 0 <= b.top < b.bottom <= HEIGHT - 1
            },
{
    assert forall|i: int, j: int|
        #![trigger label_choice(marks, i), label_choice(marks, j)]
        0 <= i < j < marks.len() && label_choice(marks, i) is Some && label_choice(
            marks,
            j,
        ) is Some implies !boxes_overlap(
        label_choice(marks, i).unwrap(),
        label_choice(marks, j).unwrap(),
    ) by {
        lemma_label_stays_placed(marks, i, j);
        let placed = placed_labels(marks, j);
        let w = choose|w: int| 0 <= w < placed.len() && placed[w] == label_choice(marks, i).unwrap();
        assert(!boxes_overlap(label_choice(marks, j).unwrap(), placed[w]));
    }
}

} // verus!
