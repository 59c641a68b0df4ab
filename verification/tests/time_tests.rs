use uefi_gb::time::{advance, due, elapsed};

#[test]
fn elapsed_is_the_difference() {
    assert_eq!(elapsed(0, 0), 0);
    assert_eq!(elapsed(1_000, 26_000), 25_000);
    assert_eq!(elapsed(0, u64::MAX), u64::MAX);
}

#[test]
fn elapsed_tolerates_wraparound() {
    assert_eq!(elapsed(u64::MAX - 5, 10), 16);
    assert_eq!(elapsed(u64::MAX, 0), 1);
    assert_eq!(elapsed(1, 0), u64::MAX);
}

#[test]
fn advance_wraps() {
    assert_eq!(advance(10, 25_000), 25_010);
    assert_eq!(advance(u64::MAX, 1), 0);
    assert_eq!(advance(u64::MAX - 5, 16), 10);
}

#[test]
fn elapsed_undoes_advance() {
    let starts = [0u64, 1, 199_999, 1 << 63, u64::MAX - 20_000, u64::MAX];
    let durations = [0u64, 1, 20_000, 200_000, 3_000_000, 1 << 63, u64::MAX];
    for start in starts {
        for duration in durations {
            assert_eq!(elapsed(start, advance(start, duration)), duration);
        }
    }
}

#[test]
fn gate_opens_at_the_interval() {
    assert!(!due(100, 100, 20_000));
    assert!(!due(100, 20_099, 20_000));
    assert!(due(100, 20_100, 20_000));
    assert!(due(100, 20_101, 20_000));
    assert!(due(u64::MAX - 9_999, 10_000, 20_000));
    assert!(!due(u64::MAX - 9_999, 9_999, 20_000));
    assert!(due(5, 5, 0));
}
