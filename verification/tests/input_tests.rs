use uefi_gb::input::{
    logical_key, InputDebouncer, KeyEvent, KeyState, LogicalKey, POLL_INTERVAL, RELEASE_THRESHOLD,
    SCAN_ESCAPE,
};

const ALL_KEYS: [LogicalKey; 8] = [
    LogicalKey::Right,
    LogicalKey::Left,
    LogicalKey::Up,
    LogicalKey::Down,
    LogicalKey::A,
    LogicalKey::B,
    LogicalKey::Select,
    LogicalKey::Start,
];

/// A debouncer whose last read lies long enough before time zero for a tick
/// at time zero to read the queue.
fn ready_at_zero() -> InputDebouncer {
    let mut d = InputDebouncer::new();
    assert!(d.tick(0u64.wrapping_sub(POLL_INTERVAL), None));
    d
}

#[test]
fn defaults() {
    assert_eq!(POLL_INTERVAL, 20_000);
    assert_eq!(RELEASE_THRESHOLD, 200_000);
    assert_eq!(SCAN_ESCAPE, 0x17);
}

#[test]
fn new_debouncer_is_idle() {
    let d = InputDebouncer::new();
    assert_eq!(d.pressed(), None);
    for key in ALL_KEYS {
        assert!(!d.joypad_pressed(key));
    }
}

#[test]
fn mapping_table() {
    assert_eq!(logical_key('d'), Some(LogicalKey::Right));
    assert_eq!(logical_key('a'), Some(LogicalKey::Left));
    assert_eq!(logical_key('w'), Some(LogicalKey::Up));
    assert_eq!(logical_key('s'), Some(LogicalKey::Down));
    assert_eq!(logical_key('z'), Some(LogicalKey::A));
    assert_eq!(logical_key('x'), Some(LogicalKey::B));
    assert_eq!(logical_key(' '), Some(LogicalKey::Select));
    assert_eq!(logical_key('\r'), Some(LogicalKey::Start));
    assert_eq!(logical_key('A'), None);
    assert_eq!(logical_key('q'), None);
    assert_eq!(logical_key('\0'), None);
}

#[test]
fn mapping_is_one_to_one() {
    for key in ALL_KEYS {
        let mut count = 0;
        for code in 0u32..0x800 {
            if let Some(c) = char::from_u32(code) {
                if logical_key(c) == Some(key) {
                    count += 1;
                }
            }
        }
        assert_eq!(count, 1);
    }
}

#[test]
fn press_is_held_below_the_threshold_and_released_at_it() {
    for release_at in [200_000u64, 200_001, 250_000, 1_000_000] {
        let mut d = ready_at_zero();
        assert!(d.poll_due(0));
        assert!(d.tick(0, Some(KeyEvent::Printable('z'))));
        assert_eq!(d.pressed(), Some(KeyState { key: 'z', press_time: 0 }));
        let mut now = 0;
        while now + POLL_INTERVAL < RELEASE_THRESHOLD {
            now += POLL_INTERVAL;
            assert!(d.poll_due(now));
            assert!(d.tick(now, None));
            assert!(d.joypad_pressed(LogicalKey::A));
        }
        assert!(d.tick(199_999, None));
        assert!(d.joypad_pressed(LogicalKey::A));
        assert!(d.poll_due(release_at));
        assert!(d.tick(release_at, None));
        assert!(!d.joypad_pressed(LogicalKey::A));
        assert_eq!(d.pressed(), None);
    }
}

#[test]
fn pressed_at_199_999_idle_at_200_001() {
    let mut d = ready_at_zero();
    assert!(d.tick(0, Some(KeyEvent::Printable('A'))));
    assert!(d.poll_due(199_999));
    assert!(d.tick(199_999, None));
    assert_eq!(d.pressed(), Some(KeyState { key: 'A', press_time: 0 }));
    let mut d = ready_at_zero();
    assert!(d.tick(0, Some(KeyEvent::Printable('A'))));
    assert!(d.poll_due(200_001));
    assert!(d.tick(200_001, None));
    assert_eq!(d.pressed(), None);
}

#[test]
fn release_waits_for_the_next_read() {
    let mut d = InputDebouncer::new();
    assert!(d.tick(1_000_000, Some(KeyEvent::Printable('x'))));
    assert!(d.tick(1_190_000, None));
    assert!(d.joypad_pressed(LogicalKey::B));
    // 1_205_000 is past the threshold, but the queue is not due yet.
    assert!(!d.poll_due(1_205_000));
    assert!(d.tick(1_205_000, None));
    assert!(d.joypad_pressed(LogicalKey::B));
    assert!(d.tick(1_210_000, None));
    assert!(!d.joypad_pressed(LogicalKey::B));
}

#[test]
fn at_most_one_key_and_only_the_latest() {
    let mut d = InputDebouncer::new();
    let strokes = ['w', 'a', 's', 'd', 'z', 'x', ' ', '\r', 'q', 'w'];
    let mut now = 0;
    for c in strokes {
        now += 25_000;
        assert!(d.tick(now, Some(KeyEvent::Printable(c))));
        assert_eq!(d.pressed(), Some(KeyState { key: c, press_time: now }));
        let mut pressed = 0;
        for key in ALL_KEYS {
            if d.joypad_pressed(key) {
                pressed += 1;
                assert_eq!(logical_key(c), Some(key));
            }
        }
        assert_eq!(pressed, if logical_key(c).is_some() { 1 } else { 0 });
    }
}

#[test]
fn a_new_stroke_renews_the_hold() {
    let mut d = InputDebouncer::new();
    assert!(d.tick(100_000, Some(KeyEvent::Printable('z'))));
    assert!(d.tick(250_000, Some(KeyEvent::Printable('z'))));
    assert!(d.tick(400_000, None));
    assert!(d.joypad_pressed(LogicalKey::A));
    assert!(d.tick(450_000, None));
    assert!(!d.joypad_pressed(LogicalKey::A));
}

#[test]
fn queue_is_read_once_per_interval() {
    let mut d = InputDebouncer::new();
    assert!(!d.poll_due(0));
    assert!(!d.poll_due(19_999));
    assert!(d.poll_due(20_000));
    assert!(d.tick(20_000, None));
    let mut reads = 0;
    let mut now = 20_000;
    while now < 120_000 {
        now += 100;
        if d.poll_due(now) {
            reads += 1;
        }
        assert!(d.tick(now, None));
    }
    assert_eq!(reads, 5);
}

#[test]
fn strokes_between_reads_are_ignored() {
    let mut d = InputDebouncer::new();
    assert!(d.tick(50_000, Some(KeyEvent::Printable('w'))));
    assert!(d.tick(60_000, Some(KeyEvent::Printable('s'))));
    assert_eq!(d.pressed(), Some(KeyState { key: 'w', press_time: 50_000 }));
    assert!(d.tick(69_999, Some(KeyEvent::Special(SCAN_ESCAPE))));
    assert_eq!(d.pressed(), Some(KeyState { key: 'w', press_time: 50_000 }));
}

#[test]
fn cancel_stops_and_keeps_the_key() {
    let mut d = InputDebouncer::new();
    assert!(d.tick(50_000, Some(KeyEvent::Printable('w'))));
    assert!(!d.tick(500_000, Some(KeyEvent::Special(SCAN_ESCAPE))));
    assert_eq!(d.pressed(), Some(KeyState { key: 'w', press_time: 50_000 }));
    assert!(!d.poll_due(500_001));
}

#[test]
fn other_special_keys_count_as_no_stroke() {
    let mut d = InputDebouncer::new();
    assert!(d.tick(50_000, Some(KeyEvent::Printable('w'))));
    assert!(d.tick(100_000, Some(KeyEvent::Special(0x01))));
    assert!(d.joypad_pressed(LogicalKey::Up));
    assert!(d.tick(250_000, Some(KeyEvent::Special(0x01))));
    assert!(!d.joypad_pressed(LogicalKey::Up));
}

#[test]
fn hold_survives_wraparound() {
    let mut d = InputDebouncer::new();
    let start = u64::MAX - 50_000;
    assert!(d.tick(start, Some(KeyEvent::Printable('d'))));
    assert!(d.tick(start.wrapping_add(100_000), None));
    assert!(d.joypad_pressed(LogicalKey::Right));
    assert!(d.tick(start.wrapping_add(199_999), None));
    assert!(d.joypad_pressed(LogicalKey::Right));
    assert!(d.tick(start.wrapping_add(220_000), None));
    assert!(!d.joypad_pressed(LogicalKey::Right));
}
