use clickhouse_spans::timestamp::format_timestamp;

#[test]
fn the_epoch_is_midnight() {
    assert_eq!(format_timestamp(0), "1970-01-01 00:00:00.000000000");
}

#[test]
fn every_nanosecond_is_kept() {
    assert_eq!(format_timestamp(1), "1970-01-01 00:00:00.000000001");
    assert_eq!(format_timestamp(999_999_999), "1970-01-01 00:00:00.999999999");
    assert_eq!(format_timestamp(1_000_000_000), "1970-01-01 00:00:01.000000000");
}

#[test]
fn leap_days_are_counted() {
    assert_eq!(format_timestamp(1_709_210_096_000_000_789), "2024-02-29 12:34:56.000000789");
    assert_eq!(format_timestamp(951_782_400_000_000_000), "2000-02-29 00:00:00.000000000");
    assert_eq!(format_timestamp(5_097_600_000_000_000), "1970-03-01 00:00:00.000000000");
}

#[test]
fn centuries_are_no_leap_years() {
    assert_eq!(format_timestamp(4_107_542_399_000_000_000), "2100-02-28 23:59:59.000000000");
    assert_eq!(format_timestamp(4_107_542_400_000_000_000), "2100-03-01 00:00:00.000000000");
}

#[test]
fn the_last_time_has_a_text() {
    assert_eq!(format_timestamp(u64::MAX), "2554-07-21 23:34:33.709551615");
}

#[test]
fn all_timestamps_have_the_same_width() {
    for nanos in [0, 1, 1_703_980_799_999_999_999, 1_709_210_096_000_000_789, u64::MAX] {
        assert_eq!(format_timestamp(nanos).chars().count(), 29);
    }
}

#[test]
fn texts_sort_as_the_times_do() {
    let times = [
        0,
        1,
        999_999_999,
        1_000_000_000,
        59_999_999_999,
        60_000_000_000,
        3_599_999_999_999,
        3_600_000_000_000,
        86_399_999_999_999,
        86_400_000_000_000,
        2_678_400_000_000_000,
        951_782_400_000_000_000,
        1_704_067_199_999_999_999,
        1_704_067_200_000_000_000,
        u64::MAX,
    ];
    for pair in times.windows(2) {
        assert!(format_timestamp(pair[0]) < format_timestamp(pair[1]));
    }
}

#[test]
fn different_times_have_different_texts() {
    assert_ne!(format_timestamp(1_709_210_096_000_000_789), format_timestamp(1_709_210_096_000_000_790));
    assert_ne!(format_timestamp(0), format_timestamp(86_400_000_000_000));
}
