use dateless::{Date, Instant};

#[test]
fn epoch_is_day_zero() {
    let d = Date::from_ymd(1970, 1, 1).unwrap();
    assert_eq!(d.days, 0);
    assert_eq!(d.year(), 1970);
    assert_eq!(d.month(), 1);
    assert_eq!(d.day(), 1);
    // 1970-01-01 was a Thursday.
    assert_eq!(d.weekday(), 4);
}

#[test]
fn day_numbers_match_the_civil_calendar() {
    assert_eq!(Date::from_ymd(1970, 1, 2).unwrap().days, 1);
    assert_eq!(Date::from_ymd(1970, 1, 5).unwrap().days, 4);
    assert_eq!(Date::from_ymd(2000, 3, 1).unwrap().days, 11017);
    assert_eq!(Date::from_ymd(2021, 5, 8).unwrap().days, 18755);
    assert_eq!(Date::from_ymd(9999, 12, 31).unwrap().days, 2_932_896);
}

#[test]
fn components_round_trip() {
    let d = Date::from_ymd(2021, 5, 8).unwrap();
    assert_eq!(d.year(), 2021);
    assert_eq!(d.month(), 5);
    assert_eq!(d.day(), 8);
    let e = Date::from_days(d.days).unwrap();
    assert_eq!(e, d);
}

#[test]
fn weekdays_count_from_monday() {
    // 2024-01-01 was a Monday, 2021-05-08 a Saturday.
    assert_eq!(Date::from_ymd(2024, 1, 1).unwrap().weekday(), 1);
    assert_eq!(Date::from_ymd(2021, 5, 8).unwrap().weekday(), 6);
    assert_eq!(Date::from_ymd(2021, 5, 9).unwrap().weekday(), 7);
}

#[test]
fn leap_years_have_february_29() {
    assert!(Date::from_ymd(2024, 2, 29).is_some());
    assert_eq!(Date::from_ymd(2024, 2, 29).unwrap().days, 19782);
    assert!(Date::from_ymd(2023, 2, 29).is_none());
    // A century is only leap on multiples of 400.
    assert!(Date::from_ymd(2000, 2, 29).is_some());
    assert!(Date::from_ymd(2100, 2, 29).is_none());
}

#[test]
fn dates_outside_the_supported_years_are_rejected() {
    assert!(Date::from_ymd(1969, 12, 31).is_none());
    assert!(Date::from_ymd(10000, 1, 1).is_none());
    assert!(Date::from_ymd(2021, 13, 1).is_none());
    assert!(Date::from_ymd(2021, 0, 1).is_none());
    assert!(Date::from_ymd(2021, 4, 31).is_none());
    assert!(Date::from_days(-1).is_none());
    assert!(Date::from_days(2_932_897).is_none());
}

#[test]
fn instants_carry_time_of_day() {
    let d = Date::from_ymd(1970, 1, 2).unwrap();
    let i = d.and_hms(1, 2, 3).unwrap();
    assert_eq!(i.millis, 86_400_000 + ((3600 + 2 * 60 + 3) * 1000));
    assert!(d.and_hms(24, 0, 0).is_none());
    assert!(d.and_hms(0, 60, 0).is_none());
    assert!(d.and_hms(0, 0, 60).is_none());
}

#[test]
fn instants_from_epoch_seconds() {
    let i = Instant::from_epoch_seconds(86_400).unwrap();
    assert_eq!(i.millis, 86_400_000);
    assert!(Instant::from_epoch_seconds(-1).is_none());
    assert_eq!(Instant::from_millis(500).unwrap().millis, 500);
}
