use chrono::{Datelike, NaiveDate};
use slix::api::Reply;
use slix::date::{previous_day, FIRST_DAY, LAST_DAY};
use slix::history::{History, HistoryError};
use slix::store::Stored;

fn day(y: i32, m: u32, d: u32) -> i32 {
    NaiveDate::from_ymd_opt(y, m, d).unwrap().num_days_from_ce()
}

fn sample_reply(id: &str) -> Reply {
    Reply {
        id: id.into(),
        created_at: 1_789_898_400_000_000_000,
        text: "hi".into(),
        to_username: "bob".into(),
        impressions: 1,
        likes: 2,
        profile_visits: 3,
    }
}

fn history() -> History {
    History::new("history".into())
}

#[test]
fn load_for_date_with_no_file_returns_none() {
    let loaded = history().load(Stored::Missing).ok().unwrap();

    assert!(loaded.is_none());
}

#[test]
fn history_load_for_corrupt_file_returns_err() {
    let err = serde_json::from_slice::<serde_json::Value>(b"not json").unwrap_err();

    let result = history().load(Stored::Malformed(err));

    assert!(matches!(result, Err(HistoryError::Json(_))));
}

#[test]
fn empty_day_loads_as_empty() {
    let loaded = history().load(Stored::Found(vec![])).ok().unwrap();

    assert!(matches!(loaded, Some(replies) if replies.is_empty()));
}

#[test]
fn no_day_files_load_nothing() {
    let dates = History::dates_on_file(&[]);
    let replies = History::join_days(dates.iter().map(|_| None).collect());

    assert!(replies.is_empty());
}

#[test]
fn no_days_join_to_nothing() {
    let replies = History::join_days(vec![]);

    assert!(replies.is_empty());
}

#[test]
fn load_all_concatenates_replies_in_date_ascending_order() {
    let names: Vec<String> =
        vec!["2026-09-20.json".into(), "2026-09-18.json".into(), "2026-09-19.json".into()];
    let dates = History::dates_on_file(&names);
    assert_eq!(dates, vec![day(2026, 9, 18), day(2026, 9, 19), day(2026, 9, 20)]);
    let saved = |d: i32| -> Option<Vec<Reply>> {
        let id = if d == day(2026, 9, 18) {
            "1"
        } else if d == day(2026, 9, 19) {
            "2"
        } else {
            "3"
        };
        Some(vec![sample_reply(id)])
    };

    let replies = History::join_days(dates.iter().map(|&d| saved(d)).collect());

    assert_eq!(replies.iter().map(|r| r.id.as_str()).collect::<Vec<_>>(), vec!["1", "2", "3"]);
}

#[test]
fn last_30_day_counts_has_30_entries_oldest_first_today_last() {
    let today = day(2026, 9, 26);
    let dates = History::recent_dates(today);
    let days: Vec<Option<Vec<Reply>>> = dates
        .iter()
        .map(|&d| {
            if d == today - 29 {
                Some(vec![sample_reply("1")])
            } else if d == today {
                Some(vec![sample_reply("2"), sample_reply("3")])
            } else {
                None
            }
        })
        .collect();

    let counts = History::day_counts(&days);

    assert_eq!(counts.len(), 30);
    assert_eq!(counts.first(), Some(&1));
    assert_eq!(counts.last(), Some(&2));
}

#[test]
fn last_30_day_counts_defaults_to_zero_for_days_with_no_file() {
    let none: Vec<Option<Vec<Reply>>> = (0..30).map(|_| None).collect();
    let counts = History::day_counts(&none);

    assert!(counts.iter().all(|&count| count == 0));
}

#[test]
fn last_30_day_counts_reflects_replies_saved_for_a_middle_day() {
    let today = day(2026, 9, 26);
    let middle_day = today - 10;
    let replies = vec![sample_reply("1"), sample_reply("2"), sample_reply("3")];
    let dates = History::recent_dates(today);
    let days: Vec<Option<Vec<Reply>>> = dates
        .iter()
        .map(|&d| {
            if d == middle_day {
                Some(vec![sample_reply("1"), sample_reply("2"), sample_reply("3")])
            } else {
                None
            }
        })
        .collect();

    let counts = History::day_counts(&days);

    assert_eq!(counts[19], replies.len() as u64);
}

#[test]
fn found_day_loads_its_replies() {
    let replies = vec![sample_reply("1"), sample_reply("2")];

    let loaded = history().load(Stored::Found(replies)).ok().unwrap().unwrap();

    assert_eq!(loaded.len(), 2);
    assert_eq!(loaded[0].id, "1");
    assert_eq!(loaded[1].id, "2");
}

// ---------------------------------------------------------------- further cases

#[test]
fn day_file_is_named_after_the_date() {
    assert_eq!(History::file_name(day(2026, 9, 20)), "2026-09-20.json");
    assert_eq!(History::temp_file_name(day(2026, 9, 20), 99), "2026-09-20.json.tmp-99");
}

#[test]
fn only_json_files_with_a_date_stem_count() {
    let names: Vec<String> = vec![
        "notes.txt".into(),
        "2026-09-20.json.tmp-5".into(),
        ".json".into(),
        "junk.json".into(),
        "2026-09-21.json".into(),
        "2026-09-19.JSON".into(),
    ];
    assert_eq!(History::dates_on_file(&names), vec![day(2026, 9, 21)]);
}

#[test]
fn recent_dates_are_consecutive() {
    let today = day(2026, 3, 1);
    let dates = History::recent_dates(today);
    assert_eq!(dates[0], day(2026, 1, 31));
    assert_eq!(dates[29], today);
    assert!(dates.windows(2).all(|w| w[1] == w[0] + 1));
}

#[test]
fn days_without_a_file_add_nothing() {
    let replies = History::join_days(vec![None, Some(vec![sample_reply("9")]), None]);
    assert_eq!(replies.len(), 1);
    assert_eq!(replies[0].id, "9");
}

#[test]
fn unreadable_day_file_is_an_io_error() {
    let err = std::io::Error::new(std::io::ErrorKind::PermissionDenied, "denied");
    assert!(matches!(history().load(Stored::Unreadable(err)), Err(HistoryError::Io(_))));
}

#[test]
fn history_keeps_its_directory() {
    assert_eq!(History::new("d".into()).directory(), "d");
}

#[test]
fn date_range_matches_chrono() {
    assert_eq!(NaiveDate::MIN.num_days_from_ce(), FIRST_DAY);
    assert_eq!(NaiveDate::MAX.num_days_from_ce(), LAST_DAY);
    assert_eq!(History::file_name(FIRST_DAY), format!("{}.json", NaiveDate::MIN));
    assert_eq!(History::file_name(LAST_DAY), format!("{}.json", NaiveDate::MAX));
}

#[test]
fn dates_are_written_and_read_in_iso_form() {
    let d = day(2026, 9, 20);
    assert_eq!(History::file_name(d), "2026-09-20.json");
    let names: Vec<String> = vec!["2026-09-20.json".into(), "yesterday.json".into()];
    assert_eq!(History::dates_on_file(&names), vec![d]);
}

#[test]
fn the_previous_day_crosses_month_and_year() {
    assert_eq!(previous_day(day(2026, 3, 1)), day(2026, 2, 28));
    assert_eq!(previous_day(day(2026, 1, 1)), day(2025, 12, 31));
    assert_eq!(previous_day(FIRST_DAY + 1), FIRST_DAY);
}
