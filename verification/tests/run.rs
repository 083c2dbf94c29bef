use slix::api::{Me, Reply};
use slix::config::Config;
use slix::report::{render_accounts, render_today};
use slix::run::{
    after_pin_flow, after_stored_check, closing_sections, closing_sections_checked, connect_start, connected_line, count_in,
    keep_in, report_body, report_body_checked, today_count, yesterday_replies, yesterday_section, ConnectStep,
};
use slix::window::Window;

fn reply(id: &str, created_at: i128, to: &str, impressions: u64) -> Reply {
    Reply {
        id: id.into(),
        created_at,
        text: "hello there".into(),
        to_username: to.into(),
        impressions,
        likes: 3,
        profile_visits: 4,
    }
}

fn connected() -> Config {
    Config {
        consumer_key: "k".into(),
        consumer_secret: "s".into(),
        access_token: Some("t".into()),
        access_token_secret: Some("ts".into()),
        data_dir: "d".into(),
    }
}

#[test]
fn connected_config_verifies_before_any_pin_flow() {
    assert!(matches!(connect_start(&connected()), ConnectStep::VerifyStoredTokens));
    assert!(after_stored_check(true).is_none());
}

#[test]
fn unconnected_config_runs_the_pin_flow_quietly() {
    let cfg = Config { access_token: None, ..connected() };
    assert!(matches!(connect_start(&cfg), ConnectStep::RunPinFlow { reconnecting: false }));
    assert!(matches!(after_pin_flow(false), ConnectStep::VerifyNewTokens));
}

#[test]
fn rejected_tokens_reconnect_and_stop() {
    assert!(matches!(
        after_stored_check(false),
        Some(ConnectStep::RunPinFlow { reconnecting: true })
    ));
    assert!(matches!(after_pin_flow(true), ConnectStep::StopReconnected));
}

#[test]
fn one_fetch_feeds_both_days() {
    let yesterday = Window { start: 0, end: 100 };
    let today = Window { start: 100, end: 150 };
    let latest = vec![reply("7", 50, "bob", 12), reply("8", 120, "bob", 12), reply("9", 200, "x", 1)];

    let (count, save_count) = today_count(None, &today, &latest);
    let (replies, save_day) = yesterday_replies(None, &yesterday, latest);

    assert_eq!((count, save_count), (1, true));
    assert!(save_day);
    assert_eq!(replies.len(), 1);
    assert_eq!(replies[0].id, "7");
}

#[test]
fn fresh_stored_count_wins_over_fetched_posts() {
    let today = Window { start: 100, end: 150 };
    let latest = vec![reply("8", 120, "bob", 12)];
    assert_eq!(today_count(Some(3), &today, &latest), (3, false));
}

#[test]
fn saved_day_wins_over_fetched_posts() {
    let yesterday = Window { start: 0, end: 100 };
    let saved = vec![reply("7", 50, "bob", 12)];
    let (replies, save) = yesterday_replies(Some(saved), &yesterday, vec![]);
    assert!(!save);
    assert_eq!(replies[0].id, "7");
}

#[test]
fn window_filters_keep_order_and_count() {
    let w = Window { start: 10, end: 20 };
    let replies = vec![reply("a", 10, "x", 1), reply("b", 20, "x", 1), reply("c", 15, "x", 1)];
    assert_eq!(count_in(&w, &replies), 2);
    let kept = keep_in(&w, replies);
    assert_eq!(kept.iter().map(|r| r.id.as_str()).collect::<Vec<_>>(), vec!["a", "c"]);
}

#[test]
fn empty_report_body_lays_out_every_section() {
    let me = Me { id: "1".into(), handle: "@slickroot".into() };
    let text = connected_line(&me) + &report_body(&[], &[], &[], 0);
    let lines: Vec<&str> = text.lines().collect();
    assert_eq!(lines[0], "@slickroot · connected");
    assert_eq!(lines[1], "Yesterday · 0 replies");
    assert_eq!(lines[2], "No replies yesterday.");
    assert_eq!(lines[3], "");
    assert_eq!(lines[4], "---");
    assert_eq!(lines[5], "");
    assert_eq!(lines[6], "Accounts");
    assert_eq!(lines[7], "No data yet.");
    assert_eq!(lines[8], "");
    assert_eq!(lines[9], "---");
    assert_eq!(lines[10], "");
    assert_eq!(lines[11], render_today(0));
}

#[test]
fn report_lists_sections_between_dividers() {
    let me = Me { id: "1".into(), handle: "@slickroot".into() };
    let yesterday = vec![reply("7", 1_000, "bob", 12)];
    let all = vec![reply("1", 0, "alice", 20), reply("7", 1_000, "bob", 12)];
    let text = connected_line(&me) + &report_body(&yesterday, &[0], &all, 0);
    let lines: Vec<&str> = text.lines().collect();
    assert_eq!(lines[0], "@slickroot · connected");
    assert_eq!(lines[1], "Yesterday · 1 replies");
    assert!(lines[2].contains("@bob"), "{text}");
    assert!(lines[2].contains("12 impressions"), "{text}");
    assert_eq!(lines[3], "");
    assert_eq!(lines[4], "---");
    assert_eq!(lines[5], "");
    assert_eq!(lines[6], "Accounts");
    assert!(lines[7].contains("@alice"), "{text}");
    assert!(lines[8].contains("@bob"), "{text}");
    assert_eq!(lines[9], "");
    assert_eq!(lines[10], "---");
    assert_eq!(lines[11], "");
    assert_eq!(lines[12], render_today(0));
    assert_eq!(lines.len(), 13, "{text}");
    assert!(text.ends_with('\n'));
    assert!(text.contains(&render_accounts(&slix::accounts::rank(&all))));
}

#[test]
fn the_report_body_is_yesterday_then_the_closing_sections() {
    let yesterday = vec![reply("7", 1_000, "bob", 12)];
    let all = vec![reply("1", 0, "alice", 20), reply("7", 1_000, "bob", 12)];
    let first = yesterday_section(&yesterday, &[0]);
    let rest = closing_sections(&all, 3);
    assert!(first.ends_with("\n\n---\n\n"), "{first}");
    assert!(rest.starts_with("Accounts\n"), "{rest}");
    assert_eq!(first + &rest, report_body(&yesterday, &[0], &all, 3));
}

#[test]
fn checked_sections_refuse_an_account_past_the_limit() {
    let all = vec![reply("1", 0, "alice", u64::MAX), reply("2", 1, "Alice", 1)];
    assert_eq!(closing_sections_checked(&all, 0), None);
    assert_eq!(report_body_checked(&[], &[], &all, 0), None);
    let fine = vec![reply("1", 0, "alice", u64::MAX), reply("2", 1, "bob", 1)];
    assert_eq!(closing_sections_checked(&fine, 2), Some(closing_sections(&fine, 2)));
    assert_eq!(report_body_checked(&[], &[], &fine, 2), Some(report_body(&[], &[], &fine, 2)));
}
