use uefi_gb::calendar::{civil_from_days, days_from_civil};

fn is_leap(y: i64) -> bool {
    y % 4 == 0 && (y % 100 != 0 || y % 400 == 0)
}

fn month_length(y: i64, m: i64) -> i64 {
    match m {
        2 => {
            if is_leap(y) {
                29
            } else {
                28
            }
        }
        4 | 6 | 9 | 11 => 30,
        _ => 31,
    }
}

#[test]
fn epoch_is_day_zero() {
    assert_eq!(days_from_civil(1970, 1, 1), 0);
}

#[test]
fn first_of_march_2000() {
    assert_eq!(days_from_civil(2000, 3, 1), 11017);
}

#[test]
fn known_day_counts() {
    assert_eq!(days_from_civil(1969, 12, 31), -1);
    assert_eq!(days_from_civil(1970, 1, 2), 1);
    assert_eq!(days_from_civil(1970, 12, 31), 364);
    assert_eq!(days_from_civil(1972, 2, 29), 789);
    assert_eq!(days_from_civil(2000, 2, 29), 11016);
    assert_eq!(days_from_civil(2024, 1, 1), 19723);
    assert_eq!(days_from_civil(0, 3, 1), -719468);
    assert_eq!(days_from_civil(0, 1, 1), -719528);
    assert_eq!(days_from_civil(-1, 12, 31), -719529);
    assert_eq!(days_from_civil(9999, 12, 31), 2932896);
}

#[test]
fn century_years_without_leap_day() {
    assert_eq!(days_from_civil(1900, 3, 1) - days_from_civil(1900, 2, 28), 1);
    assert_eq!(days_from_civil(2000, 3, 1) - days_from_civil(2000, 2, 28), 2);
    assert_eq!(days_from_civil(2100, 3, 1) - days_from_civil(2100, 2, 28), 1);
}

#[test]
fn known_dates_of_days() {
    assert_eq!(civil_from_days(0), (1970, 1, 1));
    assert_eq!(civil_from_days(-1), (1969, 12, 31));
    assert_eq!(civil_from_days(11016), (2000, 2, 29));
    assert_eq!(civil_from_days(11017), (2000, 3, 1));
    assert_eq!(civil_from_days(19723), (2024, 1, 1));
    assert_eq!(civil_from_days(-719468), (0, 3, 1));
    assert_eq!(civil_from_days(-719469), (0, 2, 29));
}

#[test]
fn every_date_of_eight_centuries_round_trips() {
    let mut expected = days_from_civil(1600, 1, 1);
    for y in 1600..2400 {
        for m in 1..=12 {
            for d in 1..=month_length(y, m) {
                let days = days_from_civil(y, m, d);
                assert_eq!(days, expected);
                assert_eq!(civil_from_days(days), (y, m, d));
                expected += 1;
            }
        }
    }
}

#[test]
fn dates_before_year_zero_round_trip() {
    for y in -801..-399 {
        for m in 1..=12 {
            for d in [1, 15, month_length(y, m)] {
                assert_eq!(civil_from_days(days_from_civil(y, m, d)), (y, m, d));
            }
        }
    }
}

#[test]
fn every_day_count_names_a_date() {
    let mut z: i64 = -1_000_000;
    while z <= 1_000_000 {
        let (y, m, d) = civil_from_days(z);
        assert!((1..=12).contains(&m));
        assert!(d >= 1 && d <= month_length(y, m));
        assert_eq!(days_from_civil(y, m, d), z);
        z += 17;
    }
}

#[test]
fn extreme_day_counts_round_trip() {
    for z in [i64::MIN, i64::MIN + 1, -146097, 146096, i64::MAX - 1, i64::MAX] {
        let (y, m, d) = civil_from_days(z);
        assert_eq!(days_from_civil(y, m, d), z);
    }
}
