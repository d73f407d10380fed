use esp_radar::encoder::{limit_steps, next_verbosity, INITIAL_VERBOSITY, VERBOSITY_LEVELS};

#[test]
fn knob_steps_lower_and_wrap() {
    assert_eq!(next_verbosity(INITIAL_VERBOSITY, 1), 7);
    assert_eq!(next_verbosity(8, -1), 9);
    assert_eq!(next_verbosity(9, -1), 0);
    assert_eq!(next_verbosity(0, 1), 9);
    assert_eq!(next_verbosity(3, 25), 8);
    assert_eq!(next_verbosity(3, -25), 8);
}

#[test]
fn knob_round_trip() {
    for level in 0..VERBOSITY_LEVELS {
        for steps in [-23i16, -1, 0, 1, 4, 17] {
            let there = next_verbosity(level, steps);
            assert!(there < VERBOSITY_LEVELS);
            assert_eq!(next_verbosity(there, -steps), level);
        }
    }
}

#[test]
fn knob_accepts_large_levels() {
    assert_eq!(next_verbosity(255, 0), 5);
    assert_eq!(next_verbosity(0, i16::MAX), 3);
}

#[test]
fn limit_events_become_steps() {
    assert_eq!(limit_steps(false, false), Vec::<i16>::new());
    assert_eq!(limit_steps(true, false), vec![1]);
    assert_eq!(limit_steps(false, true), vec![-1]);
    assert_eq!(limit_steps(true, true), vec![1, -1]);
}
