use cell_service::radio::LastUpdatesType;
use cell_service::schedule::{get_update_type, UtcDateTime};

fn utc(year: i32, month: u32, day: u32, hour: u32, min: u32, sec: u32) -> UtcDateTime {
    UtcDateTime::new(year, month, day, hour, min, sec).unwrap()
}

#[test]
fn test_no_previous_update_returns_full() {
    let last_update = UtcDateTime::epoch();
    let now = utc(2025, 12, 20, 10, 0, 0);

    assert_eq!(get_update_type(last_update, now), Some(LastUpdatesType::Full));
}

#[test]
fn test_same_day_returns_none() {
    let last_update = utc(2025, 12, 20, 8, 0, 0);
    let now = utc(2025, 12, 20, 10, 0, 0);

    assert_eq!(get_update_type(last_update, now), None);
}

#[test]
fn test_yesterday_within_24h_returns_diff() {
    let last_update = utc(2025, 12, 19, 20, 0, 0);
    let now = utc(2025, 12, 20, 10, 0, 0);

    assert_eq!(get_update_type(last_update, now), Some(LastUpdatesType::Diff));
}

#[test]
fn test_yesterday_over_24h_returns_full() {
    let last_update = utc(2025, 12, 19, 8, 0, 0);
    let now = utc(2025, 12, 20, 10, 0, 0);

    assert_eq!(get_update_type(last_update, now), Some(LastUpdatesType::Full));
}

#[test]
fn test_different_month_returns_full() {
    let last_update = utc(2025, 11, 30, 10, 0, 0);
    let now = utc(2025, 12, 1, 10, 0, 0);

    assert_eq!(get_update_type(last_update, now), Some(LastUpdatesType::Full));
}

#[test]
fn test_different_year_returns_full() {
    let last_update = utc(2024, 12, 31, 23, 0, 0);
    let now = utc(2025, 1, 1, 10, 0, 0);

    assert_eq!(get_update_type(last_update, now), Some(LastUpdatesType::Full));
}

#[test]
fn test_two_days_ago_returns_full() {
    let last_update = utc(2025, 12, 18, 10, 0, 0);
    let now = utc(2025, 12, 20, 10, 0, 0);

    assert_eq!(get_update_type(last_update, now), Some(LastUpdatesType::Full));
}

#[test]
fn test_before_4am_utc_returns_none() {
    let last_update = utc(2025, 12, 19, 10, 0, 0);
    let now = utc(2025, 12, 20, 3, 30, 0);

    assert_eq!(get_update_type(last_update, now), None);
}

#[test]
fn test_after_4am_utc_allows_update() {
    let last_update = utc(2025, 12, 19, 10, 0, 0);
    let now = utc(2025, 12, 20, 4, 0, 0);

    assert_eq!(get_update_type(last_update, now), Some(LastUpdatesType::Diff));
}

#[test]
fn exactly_one_day_is_a_full_update() {
    let last_update = utc(2025, 12, 19, 10, 0, 0);
    assert_eq!(get_update_type(last_update, utc(2025, 12, 20, 10, 0, 0)), Some(LastUpdatesType::Full));
    assert_eq!(get_update_type(last_update, utc(2025, 12, 20, 9, 59, 59)), Some(LastUpdatesType::Diff));
}

#[test]
fn a_last_update_in_the_future_of_the_same_month_is_a_diff() {
    let last_update = utc(2025, 12, 25, 10, 0, 0);
    assert_eq!(get_update_type(last_update, utc(2025, 12, 20, 10, 0, 0)), Some(LastUpdatesType::Diff));
}

#[test]
fn before_four_wins_over_never_updated() {
    assert_eq!(get_update_type(UtcDateTime::epoch(), utc(2025, 12, 20, 3, 59, 59)), None);
}

#[test]
fn invalid_dates_are_refused() {
    assert!(UtcDateTime::new(2025, 2, 29, 0, 0, 0).is_none());
    assert!(UtcDateTime::new(2024, 2, 29, 0, 0, 0).is_some());
    assert!(UtcDateTime::new(1900, 2, 29, 0, 0, 0).is_none());
    assert!(UtcDateTime::new(2000, 2, 29, 0, 0, 0).is_some());
    assert!(UtcDateTime::new(2025, 4, 31, 0, 0, 0).is_none());
    assert!(UtcDateTime::new(2025, 13, 1, 0, 0, 0).is_none());
    assert!(UtcDateTime::new(2025, 1, 1, 24, 0, 0).is_none());
    assert!(UtcDateTime::new(2025, 1, 0, 0, 0, 0).is_none());
    assert!(UtcDateTime::new(-4, 2, 29, 0, 0, 0).is_some());
}
