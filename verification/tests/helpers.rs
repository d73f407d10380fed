use esp_radar::helpers::{floor_char_boundary, truncate_string, try_heap_buffer};

#[test]
fn heap_buffer_is_zeroed() {
    let buffer = try_heap_buffer(1024).unwrap();
    assert_eq!(buffer.len(), 1024);
    assert!(buffer.iter().all(|&b| b == 0));
    assert_eq!(try_heap_buffer(0).unwrap().len(), 0);
}

#[test]
fn heap_buffer_reports_exhaustion() {
    assert_eq!(try_heap_buffer(usize::MAX), Err(()));
    assert_eq!(try_heap_buffer(isize::MAX as usize + 1), Err(()));
}

#[test]
fn floor_boundary_steps_back_inside_characters() {
    let text = "aé€";
    assert_eq!(floor_char_boundary(text, 0), 0);
    assert_eq!(floor_char_boundary(text, 1), 1);
    assert_eq!(floor_char_boundary(text, 2), 1);
    assert_eq!(floor_char_boundary(text, 3), 3);
    assert_eq!(floor_char_boundary(text, 5), 3);
    assert_eq!(floor_char_boundary(text, 6), 6);
    assert_eq!(floor_char_boundary(text, 100), 6);
}

#[test]
fn truncate_keeps_whole_characters() {
    assert_eq!(truncate_string::<8>("DLH4XY"), "DLH4XY");
    assert_eq!(truncate_string::<8>("ABCDEFGHIJ"), "ABCDEFGH");
    assert_eq!(truncate_string::<4>("aé€"), "aé");
    assert_eq!(truncate_string::<0>("abc"), "");
}

#[test]
fn truncate_is_idempotent() {
    for text in ["", "hello world", "ÄÖÜäöüß€€€", "x€"] {
        let once = truncate_string::<5>(text);
        let twice = truncate_string::<5>(&once);
        assert_eq!(once, twice);
        assert!(text.starts_with(once.as_str()));
        assert!(once.len() <= 5);
    }
}
