use chrono::{DateTime, Utc};
use slix::accounts::AccountRank;
use slix::api::Reply;
use slix::report::{
    render, render_accounts, render_grid, render_today, DAILY_GOAL, GRID_TITLE, PREVIEW_LIMIT,
    PREVIEW_WIDTH,
};

fn at(text: &str) -> i128 {
    let t = text.parse::<DateTime<Utc>>().unwrap();
    t.timestamp() as i128 * 1_000_000_000 + t.timestamp_subsec_nanos() as i128
}

fn reply(text: &str) -> Reply {
    Reply {
        id: "123".into(),
        created_at: at("2026-03-10T23:30:00Z"),
        text: text.into(),
        to_username: "alice".into(),
        impressions: 42,
        likes: 0,
        profile_visits: 0,
    }
}

/// The zone two hours ahead of UTC.
const TZ: i32 = 2 * 3600;

fn render_tz(replies: &[Reply]) -> String {
    let offsets = vec![TZ; replies.len()];
    render(replies, &offsets)
}

#[test]
fn shows_local_time_handle_and_impressions() {
    let out = render_tz(&[reply("hi")]);
    assert!(out.contains("01:30"));
    assert!(out.contains("@alice"));
    assert!(out.contains("42 impressions"));
}

#[test]
fn collapses_newlines_in_preview() {
    let out = render_tz(&[reply("a\nb\r\nc")]);
    assert!(out.contains("a b  c"));
    assert_eq!(out.lines().count(), 2);
}

#[test]
fn keeps_preview_at_the_limit() {
    let text = "x".repeat(PREVIEW_LIMIT);
    let out = render_tz(&[reply(&text)]);
    assert!(out.contains(&text));
    assert!(!out.contains('…'));
}

#[test]
fn cuts_preview_over_the_limit_with_ellipsis() {
    let text = "x".repeat(PREVIEW_LIMIT + 1);
    let out = render_tz(&[reply(&text)]);
    assert!(out.contains(&format!("{}…", "x".repeat(PREVIEW_LIMIT))));
    assert!(!out.contains(&text));
}

#[test]
fn links_with_osc8_hyperlink() {
    let out = render_tz(&[reply("hi")]);
    assert!(out.ends_with("\x1b]8;;https://x.com/i/status/123\x1b\\[link]\x1b]8;;\x1b\\"));
}

fn reply_with_likes(likes: u64) -> Reply {
    Reply { likes, ..reply("hi") }
}

fn reply_at(
    created_at: &str,
    to_username: &str,
    text: &str,
    impressions: u64,
    likes: u64,
    profile_visits: u64,
) -> Reply {
    Reply {
        id: "1".into(),
        created_at: at(created_at),
        text: text.into(),
        to_username: to_username.into(),
        impressions,
        likes,
        profile_visits,
    }
}

fn reply_with_profile_visits(profile_visits: u64) -> Reply {
    Reply { profile_visits, ..reply("hi") }
}

#[test]
fn shows_zero_profile_visits() {
    let out = render_tz(&[reply_with_profile_visits(0)]);
    assert!(out.contains("0 profile visits"));
}

#[test]
fn uses_the_word_visits_for_a_single_profile_visit() {
    let out = render_tz(&[reply_with_profile_visits(1)]);
    assert!(out.contains("1 profile visits"));
}

#[test]
fn puts_profile_visits_between_likes_and_link() {
    let out = render_tz(&[reply_with_profile_visits(7)]);
    let likes = out.find("0 likes").unwrap();
    let visits = out.find("7 profile visits").unwrap();
    let link = out.find("[link]").unwrap();
    assert!(likes < visits && visits < link);
}

#[test]
fn shows_zero_likes() {
    let out = render_tz(&[reply_with_likes(0)]);
    assert!(out.contains("0 likes"));
}

#[test]
fn uses_the_word_likes_for_a_single_like() {
    let out = render_tz(&[reply_with_likes(1)]);
    assert!(out.contains("1 likes"));
}

#[test]
fn puts_likes_between_impressions_and_link() {
    let out = render_tz(&[reply_with_likes(7)]);
    let impressions = out.find("42 impressions").unwrap();
    let likes = out.find("7 likes").unwrap();
    let link = out.find("[link]").unwrap();
    assert!(impressions < likes && likes < link);
}

#[test]
fn aligns_columns_across_replies() {
    let out = render_tz(&[
        reply_at("2026-03-10T10:00:00Z", "al", "short", 5, 5, 5),
        reply_at("2026-03-10T09:00:00Z", "bobby", "longer text", 1234, 1234, 1234),
    ]);
    let preview_width = PREVIEW_WIDTH;
    let lines: Vec<&str> = out.lines().skip(1).collect();
    assert!(lines[0].contains(&format!(
        "@al     {:<preview_width$}     5 impressions     5 likes     5 profile visits",
        "short"
    )));
    assert!(lines[1].contains(&format!(
        "@bobby  {:<preview_width$}  1234 impressions  1234 likes  1234 profile visits",
        "longer text"
    )));
}

#[test]
fn lists_newest_first() {
    let out = render_tz(&[
        reply_at("2026-03-10T08:00:00Z", "old", "x", 1, 0, 0),
        reply_at("2026-03-10T20:00:00Z", "new", "x", 1, 0, 0),
    ]);
    assert!(out.find("@new").unwrap() < out.find("@old").unwrap());
}

#[test]
fn starts_with_header_counting_replies() {
    let out = render_tz(&[reply("a"), reply("b")]);
    assert!(out.starts_with("Yesterday · 2 replies\n"));
}

#[test]
fn says_so_when_there_are_no_replies() {
    assert_eq!(render_tz(&[]), "Yesterday · 0 replies\nNo replies yesterday.");
}

#[test]
fn shows_replies_to_go_below_the_daily_goal() {
    assert_eq!(render_today(3), format!("Today: 3 of {DAILY_GOAL} replies (2 to go)"));
}

#[test]
fn shows_goal_met_at_the_daily_goal() {
    assert_eq!(
        render_today(DAILY_GOAL),
        format!("Today: {DAILY_GOAL} of {DAILY_GOAL} replies (goal met!)")
    );
}

#[test]
fn shows_goal_met_above_the_daily_goal() {
    assert_eq!(render_today(7), format!("Today: 7 of {DAILY_GOAL} replies (goal met!)"));
}

#[test]
fn shows_replies_to_go_with_zero_replies() {
    assert_eq!(
        render_today(0),
        format!("Today: 0 of {DAILY_GOAL} replies ({DAILY_GOAL} to go)")
    );
}

fn grid_squares(counts: &[u64]) -> String {
    render_grid(counts).lines().nth(1).unwrap().to_string()
}

#[test]
fn grid_has_title_line_above_the_squares() {
    let out = render_grid(&[0, DAILY_GOAL]);
    assert_eq!(out.lines().next(), Some(GRID_TITLE));
    assert_eq!(out.lines().count(), 2);
}

#[test]
fn shows_filled_square_for_days_meeting_the_goal() {
    assert_eq!(grid_squares(&[DAILY_GOAL]), "■");
}

#[test]
fn shows_dot_for_days_below_the_goal() {
    assert_eq!(grid_squares(&[DAILY_GOAL - 1]), "·");
}

#[test]
fn shows_dot_for_a_day_with_no_replies() {
    assert_eq!(grid_squares(&[0]), "·");
}

#[test]
fn joins_multiple_days_with_a_single_space() {
    assert_eq!(grid_squares(&[0, DAILY_GOAL, DAILY_GOAL + 1]), "· ■ ■");
}

/// An account whose replies add up to `total_impressions` over `reply_count`
/// replies.
fn account(handle: &str, total_impressions: u64, reply_count: usize) -> AccountRank {
    AccountRank { handle: handle.into(), total_impressions, reply_count }
}

#[test]
fn says_so_when_there_is_no_account_data() {
    assert_eq!(render_accounts(&[]), "Accounts\nNo data yet.");
}

#[test]
fn shows_rank_handle_average_impressions_and_reply_count() {
    let out = render_accounts(&[account("alice", 300, 2)]);
    assert!(out.starts_with("Accounts\n"));
    assert!(out.contains("1."));
    assert!(out.contains("@alice"));
    assert!(out.contains("150 avg impressions"));
    assert!(out.contains("2 replies"));
}

fn strip_osc8(s: &str) -> String {
    let mut out = String::new();
    let mut rest = s;
    while let Some(start) = rest.find("\x1b]8;;") {
        out.push_str(&rest[..start]);
        let after_start = &rest[start..];
        match after_start.find("\x1b\\") {
            Some(end) => rest = &after_start[end + "\x1b\\".len()..],
            None => {
                rest = "";
                break;
            }
        }
    }
    out.push_str(rest);
    out
}

#[test]
fn aligns_columns_across_accounts() {
    let out = render_accounts(&[account("al", 25, 5), account("bobby", 1234 * 1234, 1234)]);
    let lines: Vec<String> = out.lines().skip(1).map(strip_osc8).collect();
    assert_eq!(lines[0], "1. @al        5 avg impressions     5 replies");
    assert_eq!(lines[1], "2. @bobby  1234 avg impressions  1234 replies");
}

#[test]
fn rounds_average_impressions_to_nearest_whole_number() {
    // averages of 12.5 and 12.4
    let out = render_accounts(&[account("alice", 25, 2), account("bob", 62, 5)]);
    assert!(out.contains("13 avg impressions"));
    assert!(out.contains("12 avg impressions"));
}

#[test]
fn links_the_handle_with_an_osc8_hyperlink() {
    let out = render_accounts(&[account("alice", 300, 2)]);
    assert!(out.contains("\x1b]8;;https://x.com/alice\x1b\\@alice\x1b]8;;\x1b\\"));
}

#[test]
fn preserves_list_order_as_rank() {
    let out = render_accounts(&[account("first", 100, 1), account("second", 50, 1)]);
    let stripped: Vec<String> = out.lines().map(strip_osc8).collect();
    let first = out.find("@first").unwrap();
    let second = out.find("@second").unwrap();
    assert!(first < second);
    assert!(stripped[1].starts_with("1. @first"));
    assert!(stripped[2].starts_with("2. @second"));
}

// ---------------------------------------------------------------- further cases

#[test]
fn whole_line_for_one_reply_reads_as_documented() {
    let out = render_tz(&[reply_at("2026-03-10T12:32:00Z", "alice", "Great point", 340, 12, 8)]);
    let line = out.lines().nth(1).unwrap();
    assert_eq!(
        line,
        format!(
            "14:32  @alice  {:<51}  340 impressions  12 likes  8 profile visits  \x1b]8;;https://x.com/i/status/1\x1b\\[link]\x1b]8;;\x1b\\",
            "Great point"
        )
    );
}

#[test]
fn local_time_wraps_past_midnight_and_before_the_epoch() {
    let late = Reply { created_at: at("1969-12-31T23:59:59Z"), ..reply("x") };
    let out = render(&[late], &[-3600]);
    assert!(out.contains("\n22:59  @alice"), "{out}");
    let early = Reply { created_at: at("2026-03-10T00:10:00Z"), ..reply("x") };
    let out = render(&[early], &[-7200]);
    assert!(out.contains("\n22:10  @alice"), "{out}");
}

#[test]
fn replies_at_the_same_instant_keep_their_order() {
    let out = render_tz(&[
        reply_at("2026-03-10T08:00:00Z", "first", "x", 1, 0, 0),
        reply_at("2026-03-10T08:00:00Z", "second", "x", 1, 0, 0),
        reply_at("2026-03-10T09:00:00Z", "third", "x", 1, 0, 0),
    ]);
    let third = out.find("@third").unwrap();
    let first = out.find("@first").unwrap();
    let second = out.find("@second").unwrap();
    assert!(third < first && first < second);
}

#[test]
fn preview_counts_characters_not_bytes() {
    let text = "é".repeat(PREVIEW_LIMIT + 3);
    let out = render_tz(&[reply(&text)]);
    assert!(out.contains(&format!("{}…", "é".repeat(PREVIEW_LIMIT))));
}

#[test]
fn grid_of_no_days_is_the_title_alone() {
    assert_eq!(render_grid(&[]), format!("{GRID_TITLE}\n"));
}

#[test]
fn account_average_of_no_replies_is_zero() {
    let out = render_accounts(&[account("ghost", 0, 0)]);
    assert!(out.contains("0 avg impressions"), "{out}");
}

#[test]
fn huge_average_is_capped() {
    let out = render_accounts(&[account("big", u64::MAX, 1)]);
    assert!(out.contains(&format!("{} avg impressions", i64::MAX)), "{out}");
}

#[test]
fn rank_column_widens_with_ten_accounts() {
    let ranks: Vec<AccountRank> =
        (0..10).map(|i| account(&format!("a{i}"), 10 - i as u64, 1)).collect();
    let out = render_accounts(&ranks);
    let lines: Vec<String> = out.lines().map(strip_osc8).collect();
    assert!(lines[1].starts_with(" 1. @a0"), "{out}");
    assert!(lines[10].starts_with("10. @a9"), "{out}");
}
