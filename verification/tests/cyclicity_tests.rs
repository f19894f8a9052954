use dateless::{
    AnnualCycle, CalendarError, Cyclicity, DailyCycle, Date, MonthlyCycle, Period, WeeklyCycle,
};

fn day(n: i64) -> Date {
    Date::from_days(n).unwrap()
}

#[test]
fn daily_matches_every_date() {
    let p = Period::whole_days(day(10), day(11)).unwrap();
    for n in [0i64, 9, 10, 11, 500, 2_932_890] {
        let r = DailyCycle.same_period_at(&p, day(n)).unwrap();
        assert_eq!(r, Period::whole_days(day(n), day(n + 1)).unwrap());
    }
}

#[test]
fn weekly_matches_on_the_weekday_span() {
    // Anchor: Friday 2021-05-07 .. Sunday 2021-05-09, weekday span 5..=7.
    let p = Period::whole_days(
        Date::from_ymd(2021, 5, 7).unwrap(),
        Date::from_ymd(2021, 5, 9).unwrap(),
    )
    .unwrap();
    // The following Saturday: shifted back onto Friday.
    let saturday = Date::from_ymd(2021, 5, 15).unwrap();
    let r = WeeklyCycle.same_period_at(&p, saturday).unwrap();
    let friday = Date::from_ymd(2021, 5, 14).unwrap();
    assert_eq!(
        r,
        Period::whole_days(friday, Date::from_ymd(2021, 5, 16).unwrap()).unwrap()
    );
    // A Wednesday is outside the span.
    let wednesday = Date::from_ymd(2021, 5, 12).unwrap();
    assert!(WeeklyCycle.same_period_at(&p, wednesday).is_none());
}

#[test]
fn monthly_matches_on_the_day_of_month_span() {
    // Anchor: the 7th..=9th of May.
    let p = Period::whole_days(
        Date::from_ymd(2021, 5, 7).unwrap(),
        Date::from_ymd(2021, 5, 9).unwrap(),
    )
    .unwrap();
    let r = MonthlyCycle
        .same_period_at(&p, Date::from_ymd(2021, 8, 8).unwrap())
        .unwrap();
    assert_eq!(
        r,
        Period::whole_days(
            Date::from_ymd(2021, 8, 7).unwrap(),
            Date::from_ymd(2021, 8, 9).unwrap()
        )
        .unwrap()
    );
    assert!(MonthlyCycle
        .same_period_at(&p, Date::from_ymd(2021, 8, 6).unwrap())
        .is_none());
    assert!(MonthlyCycle
        .same_period_at(&p, Date::from_ymd(2021, 8, 10).unwrap())
        .is_none());
}

#[test]
fn annual_matches_on_the_month_span() {
    // Anchor: May 7th..=9th, 2021.
    let p = Period::whole_days(
        Date::from_ymd(2021, 5, 7).unwrap(),
        Date::from_ymd(2021, 5, 9).unwrap(),
    )
    .unwrap();
    // May 8th of a later year: relocated to May 7th of that year's month,
    // re-expressed from the anchor's year.
    let r = AnnualCycle
        .same_period_at(&p, Date::from_ymd(2024, 5, 8).unwrap())
        .unwrap();
    assert_eq!(
        r,
        Period::whole_days(
            Date::from_ymd(2021, 5, 7).unwrap(),
            Date::from_ymd(2021, 5, 9).unwrap()
        )
        .unwrap()
    );
    // A day of month outside the span short-circuits.
    assert!(AnnualCycle
        .same_period_at(&p, Date::from_ymd(2024, 5, 10).unwrap())
        .is_none());
    // A month outside the span does not match.
    assert!(AnnualCycle
        .same_period_at(&p, Date::from_ymd(2024, 6, 8).unwrap())
        .is_none());
}

#[test]
fn the_cadence_enum_dispatches() {
    let p = Period::whole_days(day(10), day(10)).unwrap();
    let daily = Cyclicity::Daily(DailyCycle);
    assert!(daily.same_period_at(&p, day(99)).is_some());
    let weekly = Cyclicity::Weekly(WeeklyCycle);
    // Day 10 is a Sunday (1970-01-11); day 17 the following Sunday.
    assert!(weekly.same_period_at(&p, day(17)).is_some());
    assert!(weekly.same_period_at(&p, day(16)).is_none());
}

#[test]
fn custom_cadences_are_not_implemented() {
    assert_eq!(
        Cyclicity::every_n_days(3).unwrap_err(),
        CalendarError::NotImplemented
    );
}
