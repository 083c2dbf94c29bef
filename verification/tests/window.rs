use chrono::{DateTime, Duration, NaiveDate, TimeZone, Utc};
use chrono_tz::Tz;
use slix::window::{start_of_day, DayStart, Window};

fn at(zone: Tz, y: i32, m: u32, d: u32, h: u32, min: u32) -> DateTime<Tz> {
    zone.with_ymd_and_hms(y, m, d, h, min, 0).unwrap()
}

fn ns<T: TimeZone>(t: DateTime<T>) -> i128 {
    let t = t.with_timezone(&Utc);
    t.timestamp() as i128 * 1_000_000_000 + t.timestamp_subsec_nanos() as i128
}

/// Where a local day begins in a zone, as chrono places it.
fn day_start(zone: &Tz, date: NaiveDate) -> DayStart {
    let midnight = date.and_hms_opt(0, 0, 0).unwrap();
    DayStart {
        midnight: zone.from_local_datetime(&midnight).earliest().map(ns),
        one_am: zone
            .from_local_datetime(&(midnight + Duration::hours(1)))
            .earliest()
            .map(ns),
    }
}

fn yesterday(now: DateTime<Tz>) -> Window {
    let today = now.date_naive();
    let zone = now.timezone();
    Window::yesterday(&day_start(&zone, today.pred_opt().unwrap()), &day_start(&zone, today))
}

fn today(now: DateTime<Tz>) -> Window {
    let zone = now.timezone();
    Window::today(&day_start(&zone, now.date_naive()), ns(now))
}

#[test]
fn normal_day_spans_local_midnight_to_midnight() {
    let zone = Tz::Europe__Paris;
    let window = yesterday(at(zone, 2026, 3, 10, 15, 30));

    assert_eq!(window.start, ns(at(zone, 2026, 3, 9, 0, 0)));
    assert_eq!(window.end, ns(at(zone, 2026, 3, 10, 0, 0)));
}

#[test]
fn just_after_midnight_still_means_the_previous_day() {
    let zone = Tz::Europe__Paris;
    let window = yesterday(at(zone, 2026, 3, 10, 0, 1));

    assert_eq!(window.start, ns(at(zone, 2026, 3, 9, 0, 0)));
    assert_eq!(window.end, ns(at(zone, 2026, 3, 10, 0, 0)));
}

#[test]
fn spring_forward_day_is_23_hours() {
    let zone = Tz::Europe__Paris;
    let window = yesterday(at(zone, 2026, 3, 30, 12, 0));

    assert_eq!(window.end - window.start, Duration::hours(23).num_nanoseconds().unwrap() as i128);
}

#[test]
fn fall_back_day_is_25_hours() {
    let zone = Tz::Europe__Paris;
    let window = yesterday(at(zone, 2026, 10, 26, 12, 0));

    assert_eq!(window.end - window.start, Duration::hours(25).num_nanoseconds().unwrap() as i128);
}

#[test]
fn day_whose_midnight_does_not_exist_starts_at_first_valid_instant() {
    let zone = Tz::America__Sao_Paulo;
    let window = yesterday(at(zone, 2018, 11, 5, 12, 0));

    assert_eq!(window.start, ns(at(zone, 2018, 11, 4, 1, 0)));
    assert_eq!(window.end, ns(at(zone, 2018, 11, 5, 0, 0)));
}

#[test]
fn today_spans_local_midnight_to_now() {
    let zone = Tz::Europe__Paris;
    let now = at(zone, 2026, 3, 10, 15, 30);
    let window = today(now);

    assert_eq!(window.start, ns(at(zone, 2026, 3, 10, 0, 0)));
    assert_eq!(window.end, ns(now));
}

#[test]
fn just_after_midnight_today_is_a_short_window() {
    let zone = Tz::Europe__Paris;
    let now = at(zone, 2026, 3, 10, 0, 1);
    let window = today(now);

    assert_eq!(window.start, ns(at(zone, 2026, 3, 10, 0, 0)));
    assert_eq!(window.end, ns(now));
}

#[test]
fn contains_is_true_at_start() {
    let window = yesterday(at(Tz::Europe__Paris, 2026, 3, 10, 15, 30));

    assert!(window.contains(window.start));
}

#[test]
fn contains_is_false_at_end() {
    let window = yesterday(at(Tz::Europe__Paris, 2026, 3, 10, 15, 30));

    assert!(!window.contains(window.end));
}

#[test]
fn local_midnight_belongs_to_today_and_not_yesterday() {
    let zone = Tz::Europe__Paris;
    let now = at(zone, 2026, 3, 10, 15, 30);
    let midnight = ns(at(zone, 2026, 3, 10, 0, 0));

    assert!(today(now).contains(midnight));
    assert!(!yesterday(now).contains(midnight));
}

// ---------------------------------------------------------------- further cases

#[test]
fn start_of_day_prefers_midnight_then_one_am() {
    assert_eq!(start_of_day(&DayStart { midnight: Some(10), one_am: Some(20) }), 10);
    assert_eq!(start_of_day(&DayStart { midnight: None, one_am: Some(20) }), 20);
}

#[test]
fn yesterday_ends_where_today_begins() {
    let now = at(Tz::America__Sao_Paulo, 2018, 11, 5, 12, 0);
    assert_eq!(yesterday(now).end, today(now).start);
}

#[test]
fn contains_the_last_nanosecond_before_the_end() {
    let window = Window { start: 0, end: 10 };
    assert!(window.contains(9));
    assert!(!window.contains(-1));
}
