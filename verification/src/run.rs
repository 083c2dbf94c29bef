//! One run of the program: connecting the account, and the report it writes from
//! one fetch of the latest posts and what is stored.
use vstd::prelude::*;

use crate::accounts::{account_totals_fit, each_account_fits, rank, tally, top_ranks, AccountRank};
use crate::api::{Me, Reply};
use crate::config::{connected, Config};
use crate::report::{
    accounts_text, render, render_accounts, render_today, today_text, yesterday_text,
};
use crate::window::{in_window, Window};

verus! {

// ---------------------------------------------------------------- connecting

/// What connecting does next.
#[derive(Debug)]
pub enum ConnectStep {
    /// Ask the API whether the stored tokens are still accepted.
    VerifyStoredTokens,
    /// Run the PIN flow; when `reconnecting`, after saying `reconnecting…`.
    RunPinFlow { reconnecting: bool },
    /// Ask the API for the account with the tokens just granted.
    VerifyNewTokens,
    /// Stop after saving the new tokens: they are checked on the next run.
    StopReconnected,
}

/// A configured account is first checked against the API; an unconnected one goes
/// straight to the PIN flow.
pub open spec fn first_step(is_connected: bool) -> ConnectStep {
    if is_connected {
        ConnectStep::VerifyStoredTokens
    } else {
        ConnectStep::RunPinFlow { reconnecting: false }
    }
}

/// The first step of connecting with this configuration.
pub fn connect_start(config: &Config) -> (step: ConnectStep)
    ensures
        step == first_step(connected(*config)),
{
    if config.is_connected() {
        ConnectStep::VerifyStoredTokens
    } else {
        ConnectStep::RunPinFlow { reconnecting: false }
    }
}

/// After checking the stored tokens: done when they were accepted, otherwise the
/// PIN flow runs again, announced as a reconnection.
pub fn after_stored_check(accepted: bool) -> (step: Option<ConnectStep>)
    ensures
        accepted ==> step is None,
        !accepted ==> step == Some(ConnectStep::RunPinFlow { reconnecting: true }),
{
    if accepted {
        None
    } else {
        Some(ConnectStep::RunPinFlow { reconnecting: true })
    }
}

/// After the PIN flow saved new tokens: a reconnection stops there; a first
/// connection checks the new tokens.
pub fn after_pin_flow(reconnecting: bool) -> (step: ConnectStep)
    ensures
        step == if reconnecting {
            ConnectStep::StopReconnected
        } else {
            ConnectStep::VerifyNewTokens
        },
{
    if reconnecting {
        ConnectStep::StopReconnected
    } else {
        ConnectStep::VerifyNewTokens
    }
}

// ---------------------------------------------------------------- the report

/// The replies that lie in a window, in their order.
pub open spec fn within(w: Window, replies: Seq<Reply>) -> Seq<Reply>
    decreases replies.len(),
{
    if replies.len() == 0 {
        Seq::empty()
    } else if in_window(w, replies.last().created_at as int) {
        within(w, replies.drop_last()).push(replies.last())
    } else {
        within(w, replies.drop_last())
    }
}

proof fn lemma_within_len(w: Window, replies: Seq<Reply>)
    ensures
        within(w, replies).len() <= replies.len(),
    decreases replies.len(),
{
    if replies.len() > 0 {
        lemma_within_len(w, replies.drop_last());
    }
}

/// How many of the replies lie in the window.
pub fn count_in(w: &Window, replies: &[Reply]) -> (count: u64)
    ensures
        count == within(*w, replies@).len(),
{
    let mut count: u64 = 0;
    for i in 0..replies.len()
        invariant
            count == within(*w, replies@.take(i as int)).len(),
    {
        proof {
            assert(replies@.take(i + 1).drop_last() =~= replies@.take(i as int));
            lemma_within_len(*w, replies@.take(i as int));
        }
        if w.contains(replies[i].created_at) {
            count = count + 1;
        }
    }
    proof {
        assert(replies@.take(replies@.len() as int) =~= replies@);
    }
    count
}

/// The replies that lie in the window, in their order.
pub fn keep_in(w: &Window, replies: Vec<Reply>) -> (kept: Vec<Reply>)
    ensures
        kept@ == within(*w, replies@),
{
    let ghost all = replies@;
    let mut rest = replies;
    let mut kept: Vec<Reply> = Vec::new();
    let ghost mut done: int = 0;
    while rest.len() > 0
        invariant
            0 <= done <= all.len(),
            rest@ == all.skip(done),
            kept@ == within(*w, all.take(done)),
        decreases rest.len(),
    {
        let r = rest.remove(0);
        proof {
            assert(all.take(done + 1).drop_last() =~= all.take(done));
            assert(r == all[done]);
        }
        if w.contains(r.created_at) {
            kept.push(r);
        }
        proof {
            done = done + 1;
            assert(rest@ =~= all.skip(done));
        }
    }
    proof {
        assert(all.take(done) =~= all);
    }
    kept
}

/// Today's count: the stored one while it is fresh, otherwise the fetched replies
/// of today, which are then to be saved (`true`).
pub fn today_count(stored: Option<u64>, today: &Window, latest: &[Reply]) -> (count: (u64, bool))
    ensures
        match stored {
            Some(c) => count == (c, false),
            None => count == (within(*today, latest@).len() as u64, true),
        },
{
    match stored {
        Some(c) => (c, false),
        None => (count_in(today, latest), true),
    }
}

/// Yesterday's replies: the saved ones when the day was saved, otherwise the
/// fetched replies of yesterday, which are then to be saved (`true`).
pub fn yesterday_replies(saved: Option<Vec<Reply>>, yesterday: &Window, latest: Vec<Reply>) -> (replies: (
    Vec<Reply>,
    bool,
))
    ensures
        match saved {
            Some(v) => replies.0 == v && !replies.1,
            None => replies.0@ == within(*yesterday, latest@) && replies.1,
        },
{
    match saved {
        Some(v) => (v, false),
        None => (keep_in(yesterday, latest), true),
    }
}

/// The first line of the report: the signed-in account and that it is connected.
pub open spec fn connected_text(handle: Seq<char>) -> Seq<char> {
    handle + " · connected\n"@
}

/// The rest of the report: yesterday's replies, the accounts ranking and today's
/// goal line, the sections set apart by dividers, each line ended.
pub open spec fn body_text(yesterday: Seq<char>, accounts: Seq<char>, today: Seq<char>) -> Seq<
    char,
> {
    yesterday + "\n"@ + divider() + accounts + "\n"@ + divider() + today + "\n"@
}

/// A blank line, `---` and a blank line.
pub open spec fn divider() -> Seq<char> {
    "\n---\n\n"@
}

/// The line that says which account is connected.
pub fn connected_line(me: &Me) -> (line: String)
    ensures
        line@ == connected_text(me.handle@),
{
    let mut line = me.handle.clone();
    line.append(" · connected\n");
    line
}

/// The accounts part of the report and what follows it: the ranking and today's
/// goal line, each line ended, set apart by a divider.
pub open spec fn closing_text(accounts: Seq<char>, today: Seq<char>) -> Seq<char> {
    accounts + "\n"@ + divider() + today + "\n"@
}

/// The first section of the report after its first line: yesterday's replies (with
/// the local zone's UTC offset at each) and the divider after them.
pub fn yesterday_section(yesterday: &[Reply], utc_offsets: &[i32]) -> (text: String)
    requires
        utc_offsets.len() == yesterday.len(),
        forall|i: int| 0 <= i < utc_offsets.len() ==> -86400 < #[trigger] utc_offsets[i] < 86400,
    ensures
        text@ == yesterday_text(yesterday@, utc_offsets@) + "\n"@ + divider(),
{
    let mut text = render(yesterday, utc_offsets);
    text.append("\n");
    text.append("\n---\n\n");
    text
}

/// The rest of the report: the accounts ranked over all the saved replies, the
/// divider, and today's count.
pub fn closing_sections(all_replies: &[Reply], today_count: u64) -> (text: String)
    requires
        each_account_fits(all_replies@),
    ensures
        exists|ranks: Seq<AccountRank>|
            {
                &&& top_ranks(tally(all_replies@), ranks)
                &&& text@ == closing_text(accounts_text(ranks), today_text(today_count as nat))
            },
{
    let ranks = rank(all_replies);
    let mut text = render_accounts(ranks.as_slice());
    text.append("\n");
    text.append("\n---\n\n");
    let today = render_today(today_count);
    text.append(today.as_str());
    text.append("\n");
    proof {
        assert(text@ =~= closing_text(accounts_text(ranks@), today_text(today_count as nat)));
    }
    text
}

/// The closing sections when each account's impressions add up to no more than
/// `u64::MAX`; none otherwise, where ranking them would overflow.
pub fn closing_sections_checked(all_replies: &[Reply], today_count: u64) -> (text: Option<String>)
    ensures
        text is None <==> !each_account_fits(all_replies@),
        text matches Some(t) ==> exists|ranks: Seq<AccountRank>|
            {
                &&& top_ranks(tally(all_replies@), ranks)
                &&& t@ == closing_text(accounts_text(ranks), today_text(today_count as nat))
            },
{
    if account_totals_fit(all_replies) {
        Some(closing_sections(all_replies, today_count))
    } else {
        None
    }
}

/// The report after its first line: yesterday's replies (with the local zone's UTC
/// offset at each), the accounts ranked over all the saved replies, and today's
/// count.
pub fn report_body(yesterday: &[Reply], utc_offsets: &[i32], all_replies: &[Reply], today_count: u64) -> (text:
    String)
    requires
        utc_offsets.len() == yesterday.len(),
        forall|i: int| 0 <= i < utc_offsets.len() ==> -86400 < #[trigger] utc_offsets[i] < 86400,
        each_account_fits(all_replies@),
    ensures
        exists|ranks: Seq<AccountRank>|
            {
                &&& top_ranks(tally(all_replies@), ranks)
                &&& text@ == body_text(
                    yesterday_text(yesterday@, utc_offsets@),
                    accounts_text(ranks),
                    today_text(today_count as nat),
                )
            },
{
    let mut text = yesterday_section(yesterday, utc_offsets);
    let closing = closing_sections(all_replies, today_count);
    text.append(closing.as_str());
    proof {
        let ranks = choose|ranks: Seq<AccountRank>|
            {
                &&& top_ranks(tally(all_replies@), ranks)
                &&& closing@ == closing_text(accounts_text(ranks), today_text(today_count as nat))
            };
        assert(text@ =~= body_text(
            yesterday_text(yesterday@, utc_offsets@),
            accounts_text(ranks),
            today_text(today_count as nat),
        ));
    }
    text
}

/// The report after its first line when each account's impressions add up to no
/// more than `u64::MAX`; none otherwise, where ranking them would overflow.
pub fn report_body_checked(
    yesterday: &[Reply],
    utc_offsets: &[i32],
    all_replies: &[Reply],
    today_count: u64,
) -> (text: Option<String>)
    requires
        utc_offsets.len() == yesterday.len(),
        forall|i: int| 0 <= i < utc_offsets.len() ==> -86400 < #[trigger] utc_offsets[i] < 86400,
    ensures
        text is None <==> !each_account_fits(all_replies@),
        text matches Some(t) ==> exists|ranks: Seq<AccountRank>|
            {
                &&& top_ranks(tally(all_replies@), ranks)
                &&& t@ == body_text(
                    yesterday_text(yesterday@, utc_offsets@),
                    accounts_text(ranks),
                    today_text(today_count as nat),
                )
            },
{
    if account_totals_fit(all_replies) {
        Some(report_body(yesterday, utc_offsets, all_replies, today_count))
    } else {
        None
    }
}

} // verus!
