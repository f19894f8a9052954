use dateless::{Calendar, CalendarError, Date, EventPartial, Instant, Period};

fn day(n: i64) -> Date {
    Date::from_days(n).unwrap()
}

#[test]
fn one_day_event_occurs_on_that_day_only() {
    // Scenario: an event spanning a single all-day period, no cyclicity.
    let today = Date::from_ymd(2021, 5, 8).unwrap();
    let event = EventPartial::new(String::from("Date"))
        .whole_day(today)
        .complete();
    let occurrence = event.get_occurrence_at(today).unwrap();
    assert_eq!(occurrence.name, "Date");
    assert_eq!(occurrence.description, None);
    assert_eq!(occurrence.period, Period::whole_days(today, today).unwrap());
    let yesterday = day(today.days - 1);
    let tomorrow = day(today.days + 1);
    assert!(event.get_occurrence_at(yesterday).is_none());
    assert!(event.get_occurrence_at(tomorrow).is_none());
}

#[test]
fn two_day_event_occurs_on_both_days() {
    let start = Date::from_ymd(2021, 5, 8).unwrap();
    let end = day(start.days + 1);
    let event = EventPartial::new(String::from("Date"))
        .whole_days(start, end)
        .unwrap()
        .complete();
    assert!(event.get_occurrence_at(start).is_some());
    assert!(event.get_occurrence_at(end).is_some());
    assert!(event.get_occurrence_at(day(start.days - 1)).is_none());
    assert!(event.get_occurrence_at(day(start.days + 2)).is_none());
}

#[test]
fn one_hour_event_occurs_on_its_day_only() {
    // Scenario: an event spanning exactly one hour, no cyclicity.
    let today = Date::from_ymd(2021, 5, 8).unwrap();
    let start = today.and_hms(13, 15, 0).unwrap();
    let end = Instant::from_millis(start.millis + 3_600_000).unwrap();
    let event = EventPartial::new(String::from("Date"))
        .from_to(start, end)
        .unwrap()
        .complete();
    assert!(event.get_occurrence_at(today).is_some());
    assert!(event.get_occurrence_at(day(today.days - 1)).is_none());
    assert!(event.get_occurrence_at(day(today.days + 1)).is_none());
    assert!(event.get_occurrence_at(day(today.days + 2)).is_none());
}

#[test]
fn weekly_event_recurs_on_later_mondays_only() {
    // Scenario: a one-day all-day event on a Monday, weekly cyclicity.
    let monday = Date::from_ymd(2024, 1, 1).unwrap();
    assert_eq!(monday.weekday(), 1);
    let event = EventPartial::new(String::from("Weekly standup"))
        .whole_day(monday)
        .weekly()
        .complete();
    // Present on the anchor Monday and every following Monday.
    assert!(event.get_occurrence_at(monday).is_some());
    for week in 1..5i64 {
        let next_monday = day(monday.days + 7 * week);
        let occurrence = event.get_occurrence_at(next_monday).unwrap();
        assert_eq!(
            occurrence.period,
            Period::whole_days(next_monday, next_monday).unwrap()
        );
    }
    // Absent on Tuesday through Sunday.
    for offset in 1..7i64 {
        assert!(event.get_occurrence_at(day(monday.days + 7 + offset)).is_none());
    }
    // Absent before the anchor has started.
    assert!(event.get_occurrence_at(day(monday.days - 7)).is_none());
}

#[test]
fn straddling_precise_event_occurs_on_each_touched_day() {
    // Scenario: 22:59:59 on day 0 to 00:00:00 on day 2.
    let d0 = Date::from_ymd(2021, 5, 8).unwrap();
    let start = d0.and_hms(22, 59, 59).unwrap();
    let end = day(d0.days + 2).and_hms(0, 0, 0).unwrap();
    let event = EventPartial::new(String::from("Long night"))
        .from_to(start, end)
        .unwrap()
        .complete();
    assert!(event.get_occurrence_at(day(d0.days - 1)).is_none());
    assert!(event.get_occurrence_at(d0).is_some());
    assert!(event.get_occurrence_at(day(d0.days + 1)).is_some());
    assert!(event.get_occurrence_at(day(d0.days + 2)).is_some());
    assert!(event.get_occurrence_at(day(d0.days + 3)).is_none());
}

#[test]
fn exceptions_suppress_matching_start_instants_only() {
    let monday = Date::from_ymd(2024, 1, 1).unwrap();
    let second_monday = day(monday.days + 7);
    let third_monday = day(monday.days + 14);
    // The projected occurrence on the second Monday starts at its midnight.
    let suppressed = second_monday.and_hms(0, 0, 0).unwrap();
    let event = EventPartial::new(String::from("Weekly standup"))
        .whole_day(monday)
        .weekly()
        .with_exceptions(vec![suppressed])
        .complete();
    assert!(event.get_occurrence_at(monday).is_some());
    assert!(event.get_occurrence_at(second_monday).is_none());
    assert!(event.get_occurrence_at(third_monday).is_some());
}

#[test]
fn exceptions_at_other_instants_do_not_suppress() {
    let monday = Date::from_ymd(2024, 1, 1).unwrap();
    let second_monday = day(monday.days + 7);
    // An exception within the same day but not at the start instant.
    let elsewhere = second_monday.and_hms(12, 0, 0).unwrap();
    let event = EventPartial::new(String::from("Weekly standup"))
        .whole_day(monday)
        .weekly()
        .with_exceptions(vec![elsewhere])
        .complete();
    assert!(event.get_occurrence_at(second_monday).is_some());
}

#[test]
fn daily_event_recurs_from_its_anchor_on() {
    let anchor = Date::from_ymd(2021, 5, 8).unwrap();
    let event = EventPartial::new(String::from("Every day"))
        .whole_day(anchor)
        .daily()
        .complete();
    assert!(event.get_occurrence_at(day(anchor.days - 1)).is_none());
    assert!(event.get_occurrence_at(anchor).is_some());
    assert!(event.get_occurrence_at(day(anchor.days + 1)).is_some());
    assert!(event.get_occurrence_at(day(anchor.days + 400)).is_some());
}

#[test]
fn monthly_event_recurs_on_its_day_of_month() {
    let anchor = Date::from_ymd(2021, 5, 8).unwrap();
    let event = EventPartial::new(String::from("Rent"))
        .whole_day(anchor)
        .monthly()
        .complete();
    let august_8 = Date::from_ymd(2021, 8, 8).unwrap();
    let occurrence = event.get_occurrence_at(august_8).unwrap();
    assert_eq!(
        occurrence.period,
        Period::whole_days(august_8, august_8).unwrap()
    );
    assert!(event.get_occurrence_at(Date::from_ymd(2021, 8, 9).unwrap()).is_none());
}

#[test]
fn annual_event_recurs_in_its_month() {
    let anchor = Date::from_ymd(2021, 5, 8).unwrap();
    let event = EventPartial::new(String::from("Anniversary"))
        .whole_day(anchor)
        .annual()
        .complete();
    assert!(event.get_occurrence_at(Date::from_ymd(2024, 5, 8).unwrap()).is_some());
    assert!(event.get_occurrence_at(Date::from_ymd(2024, 6, 8).unwrap()).is_none());
    assert!(event.get_occurrence_at(Date::from_ymd(2024, 5, 9).unwrap()).is_none());
}

#[test]
fn builders_reject_reversed_ranges() {
    let d = Date::from_ymd(2021, 5, 8).unwrap();
    let e = Date::from_ymd(2021, 5, 7).unwrap();
    assert_eq!(
        EventPartial::new(String::from("Broken"))
            .whole_days(d, e)
            .unwrap_err(),
        CalendarError::InvalidRange
    );
    let a = d.and_hms(10, 0, 0).unwrap();
    let b = d.and_hms(9, 0, 0).unwrap();
    assert_eq!(
        EventPartial::new(String::from("Broken"))
            .from_to(a, b)
            .unwrap_err(),
        CalendarError::InvalidRange
    );
}

#[test]
fn completing_an_empty_partial_falls_back_to_defaults() {
    let event = EventPartial::new(String::from("Bare")).complete();
    assert_eq!(event.name, "Bare");
    assert_eq!(event.description, None);
    assert!(event.cyclicity.is_none());
    assert!(event.exceptions.is_empty());
    // The fallback period covers the first representable day.
    assert!(event.get_occurrence_at(day(0)).is_some());
    assert!(event.get_occurrence_at(day(2)).is_none());
}

#[test]
fn completing_at_a_day_anchors_the_fallback_period_there() {
    // With no period set, the event covers the supplied current day and
    // the following day.
    let today = Date::from_ymd(2021, 5, 8).unwrap();
    let event = EventPartial::new(String::from("Bare today")).complete_at(today);
    assert_eq!(
        event.period,
        Period::whole_days(today, day(today.days + 1)).unwrap()
    );
    assert!(event.get_occurrence_at(today).is_some());
    assert!(event.get_occurrence_at(day(today.days + 1)).is_some());
    assert!(event.get_occurrence_at(day(today.days - 1)).is_none());
    assert!(event.get_occurrence_at(day(today.days + 2)).is_none());
    // A period that was set is kept as it is.
    let anchored = EventPartial::new(String::from("Set"))
        .whole_day(day(100))
        .complete_at(today);
    assert_eq!(anchored.period, Period::whole_days(day(100), day(100)).unwrap());
}

#[test]
fn descriptions_are_carried_into_occurrences() {
    let today = Date::from_ymd(2021, 5, 8).unwrap();
    let event = EventPartial::new(String::from("Picnic"))
        .with_description(String::from("In the park"))
        .whole_day(today)
        .complete();
    let occurrence = event.get_occurrence_at(today).unwrap();
    assert_eq!(occurrence.description.as_deref(), Some("In the park"));
}

#[test]
fn a_calendar_day_collects_each_events_occurrence() {
    let today = Date::from_ymd(2021, 5, 8).unwrap();
    let mut calendar = Calendar::new();
    calendar.add_event(
        EventPartial::new(String::from("First"))
            .whole_day(today)
            .complete(),
    );
    calendar.add_event(
        EventPartial::new(String::from("Second"))
            .whole_day(day(today.days + 1))
            .complete(),
    );
    calendar.add_event(
        EventPartial::new(String::from("Third"))
            .whole_days(today, day(today.days + 1))
            .unwrap()
            .complete(),
    );
    let occurrences = calendar.day(today);
    assert_eq!(occurrences.len(), 2);
    assert_eq!(occurrences[0].name, "First");
    assert_eq!(occurrences[1].name, "Third");
    let tomorrow = calendar.day(day(today.days + 1));
    assert_eq!(tomorrow.len(), 2);
    assert_eq!(tomorrow[0].name, "Second");
    assert_eq!(tomorrow[1].name, "Third");
    let empty = calendar.day(day(today.days + 2));
    assert!(empty.is_empty());
}

#[test]
fn seven_days_later_a_daily_event_still_occurs() {
    let today = Date::from_ymd(2021, 5, 1).unwrap();
    let mut calendar = Calendar::new();
    calendar.add_event(
        EventPartial::new(String::from("Anne's birthday"))
            .whole_days(today, today)
            .unwrap()
            .daily()
            .complete(),
    );
    let seven_days_later = day(today.days + 7);
    let occurrences = calendar.day(seven_days_later);
    assert_eq!(occurrences.len(), 1);
    assert_eq!(occurrences[0].name, "Anne's birthday");
    assert_eq!(
        occurrences[0].period,
        Period::whole_days(seven_days_later, seven_days_later).unwrap()
    );
}
