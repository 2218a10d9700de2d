use mrtracker::clock::sgt_from_unix;

#[test]
fn clock_unix_epoch_is_eight_in_the_morning() {
    let (date, clock) = sgt_from_unix(0);
    assert_eq!(date.to_text(), "19700101");
    assert_eq!(clock.to_text(), "08:00:00");
}

#[test]
fn clock_a_known_timestamp_converts() {
    let (date, clock) = sgt_from_unix(1_786_392_108);
    assert_eq!(date.to_text(), "20260811");
    assert_eq!(clock.to_text(), "04:01:48");
}

#[test]
fn clock_the_day_flips_at_sgt_midnight() {
    let (date, clock) = sgt_from_unix(1_786_377_599);
    assert_eq!(date.to_text(), "20260810");
    assert_eq!(clock.to_text(), "23:59:59");
    let (date, clock) = sgt_from_unix(1_786_377_600);
    assert_eq!(date.to_text(), "20260811");
    assert_eq!(clock.to_text(), "00:00:00");
}

#[test]
fn a_time_before_the_epoch_reads_back_the_day_before() {
    let (date, clock) = sgt_from_unix(-28_801);
    assert_eq!(date.to_text(), "19691231");
    assert_eq!(clock.to_text(), "23:59:59");
}

#[test]
fn the_current_singapore_time_is_a_clock_reading_of_today() {
    let (date, clock) = mrtracker::clock::sgt_now().unwrap();
    assert!(clock.secs < 86400);
    let unix = mrtracker::clock::unix_now().unwrap();
    let (later_date, later_clock) = mrtracker::clock::sgt_from_unix(unix);
    let before = date.days() * 86400 + i64::from(clock.secs);
    let after = later_date.days() * 86400 + i64::from(later_clock.secs);
    assert!(before <= after && after - before < 60);
}

#[test]
fn a_reading_becomes_a_singapore_date_only_in_range() {
    assert!(mrtracker::clock::sgt_from_reading(None).is_none());
    let (date, clock) = mrtracker::clock::sgt_from_reading(Some(0)).unwrap();
    assert_eq!(date.to_text(), "19700101");
    assert_eq!(clock.secs, 8 * 3600);
    assert!(mrtracker::clock::sgt_from_reading(Some(i64::MIN)).is_none());
    assert!(mrtracker::clock::sgt_from_reading(Some(i64::MAX)).is_none());
}
