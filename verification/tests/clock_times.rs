use serverstats::clock::{
    clock_label, clock_seconds, in_local_window, in_time_window, local_time_label,
    local_time_of_day, parse_time_hms, seconds_of_day, time_label, TimeError, LAST_EPOCH,
};

#[test]
fn a_time_of_day_reads_as_seconds_since_midnight() {
    assert_eq!(parse_time_hms("00:00:00"), Ok(Some(0)));
    assert_eq!(parse_time_hms("13:15:01"), Ok(Some(47_701)));
    assert_eq!(parse_time_hms("23:59:59"), Ok(Some(86_399)));
    assert_eq!(parse_time_hms("1:2:3"), Ok(Some(3_723)));
    assert_eq!(parse_time_hms("+1:02:003"), Ok(Some(3_723)));
}

#[test]
fn a_time_that_is_not_three_parts_is_a_format_error() {
    assert_eq!(parse_time_hms(""), Err(TimeError::Format));
    assert_eq!(parse_time_hms("13:15"), Err(TimeError::Format));
    assert_eq!(parse_time_hms("13"), Err(TimeError::Format));
    assert_eq!(parse_time_hms("1:2:3:4"), Err(TimeError::Format));
    assert_eq!(parse_time_hms("131501"), Err(TimeError::Format));
}

#[test]
fn a_time_out_of_range_is_a_range_error() {
    assert_eq!(parse_time_hms("24:00:00"), Err(TimeError::Range));
    assert_eq!(parse_time_hms("00:60:00"), Err(TimeError::Range));
    assert_eq!(parse_time_hms("00:00:60"), Err(TimeError::Range));
    assert_eq!(parse_time_hms("4294967295:0:0"), Err(TimeError::Range));
}

#[test]
fn a_time_with_a_part_that_is_no_number_reads_as_nothing() {
    assert_eq!(parse_time_hms("aa:00:00"), Ok(None));
    assert_eq!(parse_time_hms("00::00"), Ok(None));
    assert_eq!(parse_time_hms("::"), Ok(None));
    assert_eq!(parse_time_hms("12:30:xx"), Ok(None));
    assert_eq!(parse_time_hms("12:-1:00"), Ok(None));
    assert_eq!(parse_time_hms("99:xx:99"), Ok(None));
    assert_eq!(parse_time_hms("4294967296:0:0"), Ok(None));
}

#[test]
fn seconds_of_the_day() {
    assert_eq!(seconds_of_day(0, 0, 0), Some(0));
    assert_eq!(seconds_of_day(13, 15, 1), Some(47_701));
    assert_eq!(seconds_of_day(23, 59, 59), Some(86_399));
    assert_eq!(seconds_of_day(24, 0, 0), None);
    assert_eq!(seconds_of_day(0, 60, 0), None);
    assert_eq!(seconds_of_day(0, 0, 60), None);
    assert_eq!(seconds_of_day(u32::MAX, u32::MAX, u32::MAX), None);
}

#[test]
fn the_window_includes_both_of_its_bounds() {
    assert!(in_time_window(100, None, None));
    assert!(in_time_window(100, Some(100), Some(100)));
    assert!(in_time_window(100, Some(50), Some(150)));
    assert!(in_time_window(100, Some(100), None));
    assert!(in_time_window(100, None, Some(100)));
    assert!(!in_time_window(99, Some(100), None));
    assert!(!in_time_window(101, None, Some(100)));
    assert!(!in_time_window(100, Some(150), Some(50)));
    assert!(!in_time_window(0, Some(1), Some(86_399)));
}

#[test]
fn a_time_of_day_is_written_with_two_digits_each() {
    assert_eq!(time_label(0, 0, 0), "00:00:00");
    assert_eq!(time_label(13, 15, 1), "13:15:01");
    assert_eq!(time_label(23, 59, 59), "23:59:59");
    assert_eq!(time_label(9, 10, 9), "09:10:09");
    assert_eq!(time_label(100, 7, 123), "100:07:123");
}

#[test]
fn the_local_time_of_day_runs_with_the_epoch() {
    let t0 = local_time_of_day(1_700_000_000).expect("a time of day");
    let t1 = local_time_of_day(1_700_000_001).expect("a time of day");
    let t2 = local_time_of_day(1_700_000_060).expect("a time of day");
    assert!(t0 < 86_400 && t1 < 86_400 && t2 < 86_400);
    assert_eq!(t1, (t0 + 1) % 86_400);
    assert_eq!(t2, (t0 + 60) % 86_400);
    assert_eq!(local_time_of_day(u64::MAX), None);
    assert_eq!(local_time_of_day(1 << 63), None);
}

#[test]
fn the_local_label_is_that_of_the_local_time_of_day() {
    for ts in [0u64, 1_700_000_000, 1_700_003_599, 1_700_086_399] {
        let t = local_time_of_day(ts).expect("a time of day");
        let label = local_time_label(ts).expect("a label");
        assert_eq!(label, time_label(t / 3600, t / 60 % 60, t % 60));
        assert_eq!(label.len(), 8);
    }
    assert_eq!(local_time_label(u64::MAX), None);
}

#[test]
fn the_local_window_holds_every_epoch_when_it_has_no_bounds() {
    assert!(in_local_window(1_700_000_000, None, None));
    assert!(in_local_window(u64::MAX, None, None));
    assert!(!in_local_window(u64::MAX, Some(0), None));
    assert!(in_local_window(1_700_000_000, Some(0), Some(86_399)));
    let t = local_time_of_day(1_700_000_000).unwrap();
    assert!(in_local_window(1_700_000_000, Some(t), Some(t)));
    assert_eq!(in_local_window(1_700_000_000, Some(t + 1), None), false);
    if t > 0 {
        assert!(!in_local_window(1_700_000_000, None, Some(t - 1)));
    }
}

#[test]
fn every_epoch_up_to_the_year_9999_has_a_local_time() {
    assert_eq!(LAST_EPOCH, 253_402_300_799);
    for ts in [0u64, 1, 86_399, 86_400, 1_700_000_000, 4_294_967_295, 32_503_680_000, LAST_EPOCH] {
        let t = local_time_of_day(ts).expect("a time of day");
        assert!(t < 86_400);
        let label = local_time_label(ts).expect("a label");
        assert_eq!(label, time_label(t / 3600, t / 60 % 60, t % 60));
    }
    let t0 = local_time_of_day(LAST_EPOCH - 1).unwrap();
    let t1 = local_time_of_day(LAST_EPOCH).unwrap();
    assert_eq!(t1, (t0 + 1) % 86_400);
}

#[test]
fn a_clock_reading_becomes_seconds_and_a_label() {
    assert_eq!(clock_seconds(None), None);
    assert_eq!(clock_seconds(Some((0, 0, 0))), Some(0));
    assert_eq!(clock_seconds(Some((13, 15, 1))), Some(47_701));
    assert_eq!(clock_seconds(Some((23, 59, 59))), Some(86_399));
    assert_eq!(clock_seconds(Some((24, 0, 0))), None);
    assert_eq!(clock_seconds(Some((0, 60, 0))), None);
    assert_eq!(clock_seconds(Some((0, 0, 60))), None);
    assert_eq!(clock_label(None), None);
    assert_eq!(clock_label(Some((0, 0, 0))), Some("00:00:00".to_string()));
    assert_eq!(clock_label(Some((13, 15, 1))), Some("13:15:01".to_string()));
    assert_eq!(clock_label(Some((9, 5, 59))), Some("09:05:59".to_string()));
}
