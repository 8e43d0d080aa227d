use leveled_logger::civil::{
    civil_from_unix, days_in_month, days_in_year, is_leap_year, CivilTime,
};

fn civil(year: u64, month: u8, day: u8, hour: u8, minute: u8, second: u8) -> CivilTime {
    CivilTime { year, month, day, hour, minute, second }
}

#[test]
fn the_epoch_is_the_first_of_january_1970() {
    assert_eq!(civil_from_unix(0, 0), civil(1970, 1, 1, 0, 0, 0));
}

#[test]
fn a_day_ends_after_86400_seconds() {
    assert_eq!(civil_from_unix(86399, 0), civil(1970, 1, 1, 23, 59, 59));
    assert_eq!(civil_from_unix(86400, 0), civil(1970, 1, 2, 0, 0, 0));
}

#[test]
fn a_common_year_has_no_leap_day() {
    assert_eq!(civil_from_unix(5097599, 0), civil(1970, 2, 28, 23, 59, 59));
    assert_eq!(civil_from_unix(5097600, 0), civil(1970, 3, 1, 0, 0, 0));
    assert_eq!(civil_from_unix(31535999, 0), civil(1970, 12, 31, 23, 59, 59));
    assert_eq!(civil_from_unix(31536000, 0), civil(1971, 1, 1, 0, 0, 0));
}

#[test]
fn leap_day_of_2024_is_day_29_of_month_2() {
    let t = civil_from_unix(1709164800, 0);
    assert_eq!(t.day, 29);
    assert_eq!(t.month, 2);
    assert_eq!(t.year, 2024);
}

#[test]
fn a_common_year_after_the_leap_day_is_28_february() {
    let t = civil_from_unix(1709164800 + 365 * 86400, 0);
    assert_eq!(t, civil(2025, 2, 28, 0, 0, 0));
    let next = civil_from_unix(1709164800 + 366 * 86400, 0);
    assert_eq!(next, civil(2025, 3, 1, 0, 0, 0));
}

#[test]
fn the_last_second_of_a_leap_day() {
    assert_eq!(civil_from_unix(68169600, 0), civil(1972, 2, 29, 0, 0, 0));
    assert_eq!(civil_from_unix(68255999, 0), civil(1972, 2, 29, 23, 59, 59));
}

#[test]
fn century_years_are_leap_only_every_400_years() {
    assert_eq!(civil_from_unix(951825600, 0), civil(2000, 2, 29, 12, 0, 0));
    assert_eq!(civil_from_unix(4107542399, 0), civil(2100, 2, 28, 23, 59, 59));
    assert_eq!(civil_from_unix(4107542400, 0), civil(2100, 3, 1, 0, 0, 0));
}

#[test]
fn year_boundaries() {
    assert_eq!(civil_from_unix(946684799, 0), civil(1999, 12, 31, 23, 59, 59));
    assert_eq!(civil_from_unix(1704067199, 0), civil(2023, 12, 31, 23, 59, 59));
    assert_eq!(civil_from_unix(1704067200, 0), civil(2024, 1, 1, 0, 0, 0));
    assert_eq!(civil_from_unix(1735689599, 0), civil(2024, 12, 31, 23, 59, 59));
}

#[test]
fn an_afternoon_in_march() {
    assert_eq!(civil_from_unix(1709648521, 0), civil(2024, 3, 5, 14, 22, 1));
}

#[test]
fn three_hours_behind_utc() {
    assert_eq!(civil_from_unix(1709659321, -10800), civil(2024, 3, 5, 14, 22, 1));
    assert_eq!(civil_from_unix(1709164800, -10800), civil(2024, 2, 28, 21, 0, 0));
    assert_eq!(civil_from_unix(1704067200, -10800), civil(2023, 12, 31, 21, 0, 0));
}

#[test]
fn an_offset_ahead_of_utc() {
    assert_eq!(civil_from_unix(1709164800 - 3600, 3600), civil(2024, 2, 29, 0, 0, 0));
    assert_eq!(civil_from_unix(1704067199, 1), civil(2024, 1, 1, 0, 0, 0));
}

#[test]
fn instants_before_the_epoch() {
    assert_eq!(civil_from_unix(0, -10800), civil(1969, 12, 31, 21, 0, 0));
    assert_eq!(civil_from_unix(0, -1), civil(1969, 12, 31, 23, 59, 59));
    assert_eq!(civil_from_unix(10800, -10800), civil(1970, 1, 1, 0, 0, 0));
    assert_eq!(civil_from_unix(0, -86400), civil(1969, 12, 31, 0, 0, 0));
    assert_eq!(civil_from_unix(0, i32::MIN), civil(1901, 12, 13, 20, 45, 52));
}

#[test]
fn years_of_more_than_four_digits() {
    assert_eq!(civil_from_unix(253402300799, 0), civil(9999, 12, 31, 23, 59, 59));
    assert_eq!(civil_from_unix(253402300800, 0), civil(10000, 1, 1, 0, 0, 0));
}

#[test]
fn beyond_32_bits_of_seconds() {
    assert_eq!(civil_from_unix(4294967296, 0), civil(2106, 2, 7, 6, 28, 16));
}

#[test]
fn leap_years() {
    assert!(is_leap_year(2024));
    assert!(is_leap_year(2000));
    assert!(is_leap_year(1972));
    assert!(!is_leap_year(1900));
    assert!(!is_leap_year(2100));
    assert!(!is_leap_year(2023));
    assert!(!is_leap_year(1970));
    assert_eq!(days_in_year(2024), 366);
    assert_eq!(days_in_year(2023), 365);
    assert_eq!(days_in_year(1900), 365);
    assert_eq!(days_in_year(2000), 366);
}

#[test]
fn month_lengths() {
    let common: [u8; 12] = [31, 28, 31, 30, 31, 30, 31, 31, 30, 31, 30, 31];
    for month in 1u8..=12 {
        let expected: u8 = common[usize::from(month) - 1];
        assert_eq!(days_in_month(2023, month), expected);
        if month == 2 {
            assert_eq!(days_in_month(2024, month), 29);
        } else {
            assert_eq!(days_in_month(2024, month), expected);
        }
    }
}

#[test]
fn every_day_of_four_years_follows_the_one_before() {
    let mut expected = civil(1970, 1, 1, 12, 0, 0);
    for day in 0u64..(4 * 365 + 1) {
        assert_eq!(civil_from_unix(day * 86400 + 43200, 0), expected);
        if expected.day < days_in_month(expected.year, expected.month) {
            expected.day += 1;
        } else if expected.month < 12 {
            expected.day = 1;
            expected.month += 1;
        } else {
            expected.day = 1;
            expected.month = 1;
            expected.year += 1;
        }
    }
    assert_eq!(expected, civil(1974, 1, 1, 12, 0, 0));
}

#[test]
fn a_29th_of_february_only_in_leap_years() {
    for day in 0u64..(140 * 366) {
        let t = civil_from_unix(day * 86400, 0);
        if t.month == 2 && t.day == 29 {
            assert!(is_leap_year(t.year));
        }
        assert!(1 <= t.day && t.day <= days_in_month(t.year, t.month));
        assert!(1 <= t.month && t.month <= 12);
    }
}

#[test]
fn a_span_of_400_years_has_146097_days() {
    assert_eq!(civil_from_unix(146097 * 86400 - 1, 0), civil(2369, 12, 31, 23, 59, 59));
    assert_eq!(civil_from_unix(146097 * 86400, 0), civil(2370, 1, 1, 0, 0, 0));
    assert_eq!(
        civil_from_unix(146097 * 86400 * 5 + 86400 * 365, 0),
        civil(3971, 1, 1, 0, 0, 0)
    );
}

#[test]
fn the_latest_instants_that_fit() {
    assert_eq!(
        civil_from_unix(u64::MAX, 0),
        civil(584554051223, 11, 9, 7, 0, 15)
    );
    assert_eq!(
        civil_from_unix(u64::MAX, i32::MAX),
        civil(584554051291, 11, 27, 10, 14, 22)
    );
    assert_eq!(
        civil_from_unix(1 << 63, 0),
        civil(292277026596, 12, 4, 15, 30, 8)
    );
}
