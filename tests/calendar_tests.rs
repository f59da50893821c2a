use daliatrac::calendar::{as_of_date, last_business_day, month_length, months_before, Date, MAX_DAYS};

fn day(y: i32, m: u32, d: u32) -> Date {
    Date::from_ymd(y, m, d).unwrap()
}

#[test]
fn from_ymd_checks_the_calendar() {
    assert!(Date::from_ymd(2024, 2, 29).is_some());
    assert!(Date::from_ymd(2023, 2, 29).is_none());
    assert!(Date::from_ymd(2024, 13, 1).is_none());
    assert!(Date::from_ymd(0, 1, 1).is_none());
    assert_eq!(Date::from_ymd(1, 1, 1).unwrap().days, 1);
    assert_eq!(Date::from_ymd(9999, 12, 31).unwrap().days, MAX_DAYS);
    assert_eq!(day(2024, 3, 1).days - day(2024, 2, 28).days, 2);
}

#[test]
fn to_ymd_round_trips() {
    assert_eq!(day(2024, 2, 29).to_ymd(), (2024, 2, 29));
    assert_eq!(day(1999, 12, 31).to_ymd(), (1999, 12, 31));
}

#[test]
fn weekday_of_known_days() {
    assert_eq!(day(2024, 3, 4).weekday(), 0); // Monday
    assert_eq!(day(2024, 3, 2).weekday(), 5); // Saturday
    assert_eq!(day(2024, 3, 3).weekday(), 6); // Sunday
    assert!(!day(2024, 3, 3).is_business_day());
    assert!(day(2024, 3, 1).is_business_day());
}

#[test]
fn last_business_day_moves_weekends_to_friday() {
    assert_eq!(last_business_day(day(2024, 3, 2)), day(2024, 3, 1));
    assert_eq!(last_business_day(day(2024, 3, 3)), day(2024, 3, 1));
    assert_eq!(last_business_day(day(2024, 3, 4)), day(2024, 3, 4));
    assert_eq!(last_business_day(day(2024, 2, 28)), day(2024, 2, 28));
}

#[test]
fn last_business_day_is_idempotent_and_never_a_weekend() {
    let start = day(2023, 12, 20).days;
    for n in start..start + 40 {
        let d = Date::from_days(n).unwrap();
        let once = last_business_day(d);
        assert_eq!(last_business_day(once), once);
        assert!(once.weekday() < 5);
        assert!(once.days <= d.days && d.days - once.days <= 2);
    }
}

#[test]
fn as_of_date_uses_the_cutover() {
    let monday = day(2024, 3, 4);
    let cutover = 15 * 3600;
    assert_eq!(as_of_date(monday, cutover - 1, cutover), day(2024, 3, 1));
    assert_eq!(as_of_date(monday, cutover, cutover), monday);
    let tuesday = day(2024, 3, 5);
    assert_eq!(as_of_date(tuesday, 8 * 3600, 73800), monday);
    assert_eq!(as_of_date(day(2024, 3, 3), 23 * 3600, cutover), day(2024, 3, 1));
}

#[test]
fn months_before_clamps_and_moves_to_a_business_day() {
    assert_eq!(months_before(day(2024, 3, 31), 1), day(2024, 2, 29));
    assert_eq!(months_before(day(2024, 5, 31), 3), day(2024, 2, 29));
    assert_eq!(months_before(day(2024, 7, 31), 1), day(2024, 6, 28));
    assert_eq!(months_before(day(2024, 3, 15), 12), day(2023, 3, 15));
    assert_eq!(months_before(day(2024, 1, 15), 2), day(2023, 11, 15));
    assert_eq!(months_before(day(2023, 3, 31), 1), day(2023, 2, 28));
}

#[test]
fn month_length_knows_leap_years() {
    assert_eq!(month_length(2024, 2), 29);
    assert_eq!(month_length(1900, 2), 28);
    assert_eq!(month_length(2000, 2), 29);
    assert_eq!(month_length(2023, 4), 30);
    assert_eq!(month_length(2023, 12), 31);
}
