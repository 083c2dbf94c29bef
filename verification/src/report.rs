//! The text of the report: yesterday's replies, the accounts ranking, today's goal
//! line and the thirty-day grid.
use vstd::prelude::*;

use vstd::relations::total_ordering;

use crate::accounts::{rounded_average, AccountRank};
use crate::api::Reply;
use crate::order::{
    as_positions, lemma_as_positions_insert, lemma_insert_next_position, lemma_sorted_positions,
    positions,
};
use crate::text::{
    chars_of, decimal, decimal_len, digit, pad_left, pad_right, push_decimal,
    push_number_right_aligned, push_padded_right, push_spaces, seq_max, spaces,
};

verus! {

/// How many characters of a reply's text its preview keeps.
pub const PREVIEW_LIMIT: usize = 50;

/// The width of the preview column: the limit and the ellipsis.
pub const PREVIEW_WIDTH: usize = 51;

/// The number of replies a day takes to meet the goal.
pub const DAILY_GOAL: u64 = 5;

/// The first line of the thirty-day grid.
pub const GRID_TITLE: &'static str = "Last 30 days";

// ---------------------------------------------------------------- lines

/// Each line preceded by a line break.
pub open spec fn prefixed_lines(lines: Seq<Seq<char>>) -> Seq<char>
    decreases lines.len(),
{
    if lines.len() == 0 {
        Seq::empty()
    } else {
        prefixed_lines(lines.drop_last()) + "\n"@ + lines.last()
    }
}

/// The items separated by single spaces.
pub open spec fn space_separated(items: Seq<Seq<char>>) -> Seq<char>
    decreases items.len(),
{
    if items.len() == 0 {
        Seq::empty()
    } else if items.len() == 1 {
        items[0]
    } else {
        space_separated(items.drop_last()) + " "@ + items.last()
    }
}

// ---------------------------------------------------------------- today

/// `Today: N of 5 replies (M to go)`, or `(goal met!)` from the goal on.
pub open spec fn today_text(count: nat) -> Seq<char> {
    if count >= DAILY_GOAL {
        "Today: "@ + decimal(count) + " of "@ + decimal(DAILY_GOAL as nat)
            + " replies (goal met!)"@
    } else {
        "Today: "@ + decimal(count) + " of "@ + decimal(DAILY_GOAL as nat) + " replies ("@
            + decimal((DAILY_GOAL - count) as nat) + " to go)"@
    }
}

/// The line that compares today's reply count with the daily goal.
pub fn render_today(count: u64) -> (line: String)
    ensures
        line@ == today_text(count as nat),
{
    let mut line = String::from_str("Today: ");
    push_decimal(&mut line, count);
    line.append(" of ");
    push_decimal(&mut line, DAILY_GOAL);
    if count >= DAILY_GOAL {
        line.append(" replies (goal met!)");
    } else {
        line.append(" replies (");
        push_decimal(&mut line, DAILY_GOAL - count);
        line.append(" to go)");
    }
    line
}

/// Below the goal of five the line counts down to it, and only at five or more
/// does it say the goal is met: `Today: N of 5 replies (5-N to go)` for `N < 5`,
/// `Today: N of 5 replies (goal met!)` for `N >= 5`.
pub proof fn today_counts_down_to_the_goal(count: nat)
    ensures
        count < 5 ==> today_text(count) == "Today: "@ + decimal(count) + " of 5 replies ("@
            + seq![digit(5 - count)] + " to go)"@,
        count >= 5 ==> today_text(count) == "Today: "@ + decimal(count)
            + " of 5 replies (goal met!)"@,
{
    reveal_strlit(" of ");
    reveal_strlit(" replies (goal met!)");
    reveal_strlit(" replies (");
    reveal_strlit(" of 5 replies (");
    reveal_strlit(" of 5 replies (goal met!)");
    assert(decimal(5) == seq!['5']);
    if count < 5 {
        assert(decimal((5 - count) as nat) == seq![digit(5 - count)]);
        assert(" of "@ + decimal(5) + " replies ("@ =~= " of 5 replies ("@);
        assert(today_text(count) =~= "Today: "@ + decimal(count) + " of 5 replies ("@ + seq![
            digit(5 - count),
        ] + " to go)"@);
    } else {
        assert(" of "@ + decimal(5) + " replies (goal met!)"@ =~= " of 5 replies (goal met!)"@);
        assert(today_text(count) =~= "Today: "@ + decimal(count) + " of 5 replies (goal met!)"@);
    }
}

// ---------------------------------------------------------------- grid

/// A filled square for a day that met the goal, a dot for one that did not.
pub open spec fn day_square(count: u64) -> Seq<char> {
    if count >= DAILY_GOAL {
        "■"@
    } else {
        "·"@
    }
}

/// The grid title, then one square per day, oldest first, separated by spaces.
pub open spec fn grid_text(counts: Seq<u64>) -> Seq<char> {
    GRID_TITLE@ + "\n"@ + space_separated(counts.map_values(|c: u64| day_square(c)))
}

/// One square per day's reply count under the grid title.
pub fn render_grid(counts: &[u64]) -> (grid: String)
    ensures
        grid@ == grid_text(counts@),
{
    let mut grid = String::from_str(GRID_TITLE);
    grid.append("\n");
    let ghost head = grid@;
    let ghost squares = counts@.map_values(|c: u64| day_square(c));
    for i in 0..counts.len()
        invariant
            squares == counts@.map_values(|c: u64| day_square(c)),
            grid@ == head + space_separated(squares.take(i as int)),
    {
        if i > 0 {
            grid.append(" ");
        }
        if counts[i] >= DAILY_GOAL {
            grid.append("■");
        } else {
            grid.append("·");
        }
        proof {
            assert(squares.take(i + 1).drop_last() =~= squares.take(i as int));
            if i == 0 {
                assert(squares.take(1) =~= seq![squares[0]]);
            }
        }
    }
    proof {
        assert(squares.take(counts.len() as int) =~= squares);
    }
    grid
}

// ---------------------------------------------------------------- yesterday

/// The characters of a reply's text on one line: line breaks become spaces.
pub open spec fn single_line(text: Seq<char>) -> Seq<char> {
    text.map_values(|c: char| if c == '\r' || c == '\n' { ' ' } else { c })
}

/// The preview of a reply's text: on one line, and cut to the limit with an
/// ellipsis when longer.
pub open spec fn preview_text(text: Seq<char>) -> Seq<char> {
    let line = single_line(text);
    if line.len() > PREVIEW_LIMIT {
        line.take(PREVIEW_LIMIT as int).push('…')
    } else {
        line
    }
}

/// A preview never takes more than its column: at most the limit and the
/// ellipsis, and no line breaks.
pub proof fn preview_fits_its_column(text: Seq<char>)
    ensures
        preview_text(text).len() <= PREVIEW_WIDTH,
        forall|i: int|
            0 <= i < preview_text(text).len() ==> preview_text(text)[i] != '\n'
                && preview_text(text)[i] != '\r',
{
    let line = single_line(text);
    if line.len() > PREVIEW_LIMIT {
        assert forall|i: int| 0 <= i < preview_text(text).len() implies preview_text(text)[i] != '\n'
            && preview_text(text)[i] != '\r' by {
            if i < PREVIEW_LIMIT {
                assert(preview_text(text)[i] == line[i]);
            }
        }
    }
}

/// The terminal hyperlink `[link]` to a post on X.
pub open spec fn link_text(id: Seq<char>) -> Seq<char> {
    "\x1b]8;;https://x.com/i/status/"@ + id + "\x1b\\[link]\x1b]8;;\x1b\\"@
}

/// The minute of the local day at which an instant (in nanoseconds since the
/// epoch) falls, in a zone that is `offset` seconds ahead of UTC.
pub open spec fn minute_of_day(created_at: int, offset: int) -> int {
    ((created_at / 1_000_000_000 + offset) % 86400) / 60
}

/// `HH:MM` for a minute of the day.
pub open spec fn clock_text(minute: int) -> Seq<char> {
    let h = minute / 60;
    let m = minute % 60;
    seq![digit(h / 10), digit(h % 10), ':', digit(m / 10), digit(m % 10)]
}

/// The column widths of yesterday's lines: the widest handle with its `@`, and the
/// widest of each count.
pub struct ReplyWidths {
    pub handle: nat,
    pub impressions: nat,
    pub likes: nat,
    pub profile_visits: nat,
}

pub open spec fn reply_widths(replies: Seq<Reply>) -> ReplyWidths {
    ReplyWidths {
        handle: seq_max(replies.map_values(|r: Reply| (r.to_username@.len() + 1) as nat)),
        impressions: seq_max(replies.map_values(|r: Reply| decimal(r.impressions as nat).len())),
        likes: seq_max(replies.map_values(|r: Reply| decimal(r.likes as nat).len())),
        profile_visits: seq_max(
            replies.map_values(|r: Reply| decimal(r.profile_visits as nat).len()),
        ),
    }
}

/// One line of yesterday's list: when, to whom, what, and how it did.
pub open spec fn reply_line(r: Reply, offset: int, w: ReplyWidths) -> Seq<char> {
    reply_line_head(r, offset, w) + reply_line_numbers(r, w)
}

/// The local time, the handle and the preview of a line of yesterday's list.
pub open spec fn reply_line_head(r: Reply, offset: int, w: ReplyWidths) -> Seq<char> {
    clock_text(minute_of_day(r.created_at as int, offset)) + "  "@ + pad_right(
        "@"@ + r.to_username@,
        w.handle,
    ) + "  "@ + pad_right(preview_text(r.text@), PREVIEW_WIDTH as nat)
}

/// The impressions, likes, profile visits and link of a line of yesterday's list.
pub open spec fn reply_line_numbers(r: Reply, w: ReplyWidths) -> Seq<char> {
    "  "@ + pad_left(decimal(r.impressions as nat), w.impressions) + " impressions  "@ + pad_left(
        decimal(r.likes as nat),
        w.likes,
    ) + " likes  "@ + pad_left(decimal(r.profile_visits as nat), w.profile_visits)
        + " profile visits  "@ + link_text(r.id@)
}

/// Position `i` comes no later than position `j` when listing newest first: its
/// reply is newer, or posted at the same instant and given earlier.
pub open spec fn newer_or_same(replies: Seq<Reply>) -> spec_fn(int, int) -> bool {
    |i: int, j: int|
        replies[i].created_at > replies[j].created_at || (replies[i].created_at
            == replies[j].created_at && i <= j)
}

/// The positions of `replies`, newest first; replies posted at the same instant
/// keep their given order.
pub open spec fn newest_first_order(replies: Seq<Reply>) -> Seq<int> {
    positions(replies.len()).sort_by(newer_or_same(replies))
}

/// `order` lists positions of `replies` newest first, ties in their given order.
spec fn newest_first(replies: Seq<Reply>, order: Seq<int>) -> bool {
    &&& forall|k: int| 0 <= k < order.len() ==> 0 <= #[trigger] order[k] < replies.len()
    &&& forall|k: int, l: int|
        #![trigger order[k], order[l]]
        0 <= k < l < order.len() ==> {
            ||| replies[order[k]].created_at > replies[order[l]].created_at
            ||| (replies[order[k]].created_at == replies[order[l]].created_at && order[k]
                < order[l])
        }
}

proof fn lemma_newer_or_same_is_total(replies: Seq<Reply>)
    ensures
        total_ordering(newer_or_same(replies)),
{
    let leq = newer_or_same(replies);
    assert forall|x: int, y: int, z: int| #[trigger] leq(x, y) && #[trigger] leq(y, z) implies leq(
        x,
        z,
    ) by {}
}

/// The header of yesterday's section.
pub open spec fn yesterday_header(count: nat) -> Seq<char> {
    "Yesterday · "@ + decimal(count) + " replies"@
}

/// Yesterday's section: the header, then one line per reply, newest first, or a
/// note that there were none. `offsets[i]` is how many seconds the local zone is
/// ahead of UTC at the instant of `replies[i]`.
pub open spec fn yesterday_text(replies: Seq<Reply>, offsets: Seq<i32>) -> Seq<char> {
    if replies.len() == 0 {
        yesterday_header(0) + "\nNo replies yesterday."@
    } else {
        let w = reply_widths(replies);
        let order = newest_first_order(replies);
        yesterday_header(replies.len()) + prefixed_lines(
            Seq::new(
                order.len(),
                |k: int| reply_line(replies[order[k]], offsets[order[k]] as int, w),
            ),
        )
    }
}

proof fn lemma_seq_max_push(s: Seq<nat>, x: nat)
    ensures
        seq_max(s.push(x)) == if x > seq_max(s) {
            x
        } else {
            seq_max(s)
        },
{
    assert(s.push(x).drop_last() =~= s);
}

/// Every value is at most the largest, and some value is the largest.
proof fn lemma_seq_max_bounds(s: Seq<nat>)
    ensures
        forall|i: int| 0 <= i < s.len() ==> s[i] <= seq_max(s),
        s.len() > 0 ==> exists|i: int| 0 <= i < s.len() && s[i] == seq_max(s),
    decreases s.len(),
{
    if s.len() > 0 {
        lemma_seq_max_bounds(s.drop_last());
        assert forall|i: int| 0 <= i < s.len() implies s[i] <= seq_max(s) by {
            if i < s.len() - 1 {
                assert(s.drop_last()[i] == s[i]);
            }
        }
        if s.last() > seq_max(s.drop_last()) || s.len() == 1 {
            assert(s[s.len() - 1] == seq_max(s));
        } else {
            let i = choose|i: int|
                0 <= i < s.drop_last().len() && s.drop_last()[i] == seq_max(s.drop_last());
            assert(s[i] == seq_max(s));
        }
    }
}

/// `s` padded to a width at least its length takes exactly that width.
proof fn lemma_padded_width(s: Seq<char>, width: nat)
    requires
        s.len() <= width,
    ensures
        pad_left(s, width).len() == width,
        pad_right(s, width).len() == width,
{
}

/// The columns of yesterday's list line up: each column is as wide as its widest
/// entry, so every reply's handle (with its `@`), impressions, likes and profile
/// visits fit their column, the padded fields of every line have the same width,
/// and no column is wider than needed.
pub proof fn reply_columns_line_up(replies: Seq<Reply>)
    ensures
        forall|i: int|
            0 <= i < replies.len() ==> {
                let r = #[trigger] replies[i];
                let w = reply_widths(replies);
                &&& decimal(r.impressions as nat).len() <= w.impressions
                &&& decimal(r.likes as nat).len() <= w.likes
                &&& decimal(r.profile_visits as nat).len() <= w.profile_visits
                &&& ("@"@ + r.to_username@).len() <= w.handle
                &&& pad_left(decimal(r.impressions as nat), w.impressions).len() == w.impressions
                &&& pad_left(decimal(r.likes as nat), w.likes).len() == w.likes
                &&& pad_left(decimal(r.profile_visits as nat), w.profile_visits).len()
                    == w.profile_visits
                &&& pad_right("@"@ + r.to_username@, w.handle).len() == w.handle
            },
        replies.len() > 0 ==> exists|i: int|
            0 <= i < replies.len() && decimal(replies[i].impressions as nat).len()
                == reply_widths(replies).impressions,
        replies.len() > 0 ==> exists|i: int|
            0 <= i < replies.len() && decimal(replies[i].likes as nat).len() == reply_widths(
                replies,
            ).likes,
        replies.len() > 0 ==> exists|i: int|
            0 <= i < replies.len() && decimal(replies[i].profile_visits as nat).len()
                == reply_widths(replies).profile_visits,
        replies.len() > 0 ==> exists|i: int|
            0 <= i < replies.len() && ("@"@ + replies[i].to_username@).len() == reply_widths(
                replies,
            ).handle,
{
    let hs = replies.map_values(|r: Reply| (r.to_username@.len() + 1) as nat);
    let is = replies.map_values(|r: Reply| decimal(r.impressions as nat).len());
    let ls = replies.map_values(|r: Reply| decimal(r.likes as nat).len());
    let ps = replies.map_values(|r: Reply| decimal(r.profile_visits as nat).len());
    lemma_seq_max_bounds(hs);
    lemma_seq_max_bounds(is);
    lemma_seq_max_bounds(ls);
    lemma_seq_max_bounds(ps);
    let w = reply_widths(replies);
    reveal_strlit("@");
    assert forall|i: int| 0 <= i < replies.len() implies {
        let r = #[trigger] replies[i];
        &&& decimal(r.impressions as nat).len() <= w.impressions
        &&& decimal(r.likes as nat).len() <= w.likes
        &&& decimal(r.profile_visits as nat).len() <= w.profile_visits
        &&& ("@"@ + r.to_username@).len() <= w.handle
        &&& pad_left(decimal(r.impressions as nat), w.impressions).len() == w.impressions
        &&& pad_left(decimal(r.likes as nat), w.likes).len() == w.likes
        &&& pad_left(decimal(r.profile_visits as nat), w.profile_visits).len() == w.profile_visits
        &&& pad_right("@"@ + r.to_username@, w.handle).len() == w.handle
    } by {
        let r = replies[i];
        assert(hs[i] <= w.handle && is[i] <= w.impressions && ls[i] <= w.likes && ps[i]
            <= w.profile_visits);
        lemma_padded_width(decimal(r.impressions as nat), w.impressions);
        lemma_padded_width(decimal(r.likes as nat), w.likes);
        lemma_padded_width(decimal(r.profile_visits as nat), w.profile_visits);
        lemma_padded_width("@"@ + r.to_username@, w.handle);
    }
    if replies.len() > 0 {
        let i = choose|i: int| 0 <= i < is.len() && is[i] == seq_max(is);
        assert(decimal(replies[i].impressions as nat).len() == w.impressions);
        let i = choose|i: int| 0 <= i < ls.len() && ls[i] == seq_max(ls);
        assert(decimal(replies[i].likes as nat).len() == w.likes);
        let i = choose|i: int| 0 <= i < ps.len() && ps[i] == seq_max(ps);
        assert(decimal(replies[i].profile_visits as nat).len() == w.profile_visits);
        let i = choose|i: int| 0 <= i < hs.len() && hs[i] == seq_max(hs);
        assert(("@"@ + replies[i].to_username@).len() == w.handle);
    }
}

/// Positions of `replies`, newest first, ties in their given order.
fn order_newest_first(replies: &[Reply]) -> (order: Vec<usize>)
    ensures
        as_positions(order@) == newest_first_order(replies@),
        order@.len() == replies@.len(),
        forall|k: int| 0 <= k < order@.len() ==> #[trigger] order@[k] < replies@.len(),
{
    let mut order: Vec<usize> = Vec::new();
    proof {
        assert(as_positions(order@) =~= positions(0));
    }
    for i in 0..replies.len()
        invariant
            order@.len() == i,
            i <= replies@.len(),
            forall|k: int| 0 <= k < i ==> #[trigger] order@[k] < i,
            newest_first(replies@, as_positions(order@)),
            as_positions(order@).to_multiset() == positions(i as nat).to_multiset(),
    {
        let t = replies[i].created_at;
        let mut pos: usize = 0;
        while pos < order.len() && replies[order[pos]].created_at >= t
            invariant
                order@.len() == i,
                i < replies@.len(),
                t == replies@[i as int].created_at,
                pos <= i,
                forall|k: int| 0 <= k < pos ==> replies@[#[trigger] order@[k] as int].created_at >= t,
                forall|k: int| 0 <= k < i ==> #[trigger] order@[k] < i,
            decreases i - pos,
        {
            pos = pos + 1;
        }
        let ghost before = order@;
        order.insert(pos, i);
        proof {
            lemma_as_positions_insert(before, pos as int, i);
            lemma_insert_next_position(as_positions(before), i as nat, pos as int);
            assert forall|k: int| 0 <= k < i + 1 implies #[trigger] order@[k] < i + 1 by {
                if k < pos {
                    assert(order@[k] == before[k]);
                } else if k > pos {
                    assert(order@[k] == before[k - 1]);
                }
            }
            if pos < i {
                assert(replies@[before[pos as int] as int].created_at < t);
            }
            let ord = as_positions(order@);
            let prev = as_positions(before);
            assert forall|k: int, l: int| 0 <= k < l < i + 1 implies {
                ||| replies@[ord[k]].created_at > replies@[ord[l]].created_at
                ||| (replies@[ord[k]].created_at == replies@[ord[l]].created_at && ord[k] < ord[l])
            } by {
                if l < pos {
                    assert(ord[k] == prev[k] && ord[l] == prev[l]);
                } else if l == pos {
                    assert(ord[k] == prev[k]);
                    assert(replies@[before[k] as int].created_at >= t);
                } else if k > pos {
                    assert(ord[k] == prev[k - 1] && ord[l] == prev[l - 1]);
                } else if k == pos {
                    assert(ord[l] == prev[l - 1]);
                    if l - 1 > pos {
                        assert(prev[pos as int] == ord[pos + 1]);
                        assert(replies@[prev[pos as int]].created_at >= replies@[prev[l - 1]].created_at);
                    }
                } else {
                    assert(ord[k] == prev[k] && ord[l] == prev[l - 1]);
                }
            }
        }
    }
    proof {
        let ord = as_positions(order@);
        lemma_newer_or_same_is_total(replies@);
        let leq = newer_or_same(replies@);
        assert forall|k: int, l: int| 0 <= k < l < ord.len() implies #[trigger] leq(ord[k], ord[l]) by {}
        lemma_sorted_positions(ord, replies@.len(), leq);
    }
    order
}

/// Appends the local `HH:MM` of an instant.
fn push_clock(out: &mut String, created_at: i128, offset: i32)
    requires
        -86400 < offset < 86400,
    ensures
        final(out)@ == old(out)@ + clock_text(minute_of_day(created_at as int, offset as int)),
{
    let mut secs = created_at / 1_000_000_000;
    if created_at % 1_000_000_000 < 0 {
        secs = secs - 1;
    }
    assert(secs == created_at as int / 1_000_000_000);
    let local = secs + offset as i128;
    let mut in_day = local % 86400;
    if in_day < 0 {
        in_day = in_day + 86400;
    }
    assert(in_day == local as int % 86400);
    let minute = in_day / 60;
    let h = minute / 60;
    let m = minute % 60;
    out.push(digit_of((h / 10) as u64));
    out.push(digit_of((h % 10) as u64));
    out.push(':');
    out.push(digit_of((m / 10) as u64));
    out.push(digit_of((m % 10) as u64));
    proof {
        assert(out@ =~= old(out)@ + clock_text(minute_of_day(created_at as int, offset as int)));
    }
}

fn digit_of(d: u64) -> (c: char)
    requires
        d < 10,
    ensures
        c == digit(d as int),
{
    let b: u8 = d as u8 + 48;
    b as char
}

/// The preview of a reply's text: on one line, cut to the limit with an ellipsis.
fn preview(text: &str) -> (line: Vec<char>)
    ensures
        line@ == preview_text(text@),
{
    let chars = chars_of(text);
    let mut line: Vec<char> = Vec::new();
    let limit = if chars.len() > PREVIEW_LIMIT {
        PREVIEW_LIMIT
    } else {
        chars.len()
    };
    for i in 0..limit
        invariant
            limit <= chars.len(),
            chars@ == text@,
            line@ == single_line(chars@).take(i as int),
    {
        let c = chars[i];
        if c == '\r' || c == '\n' {
            line.push(' ');
        } else {
            line.push(c);
        }
        proof {
            assert(single_line(chars@).take(i + 1) =~= single_line(chars@).take(i as int).push(
                line@.last(),
            ));
        }
    }
    if chars.len() > PREVIEW_LIMIT {
        line.push('…');
    }
    proof {
        if chars.len() <= PREVIEW_LIMIT {
            assert(single_line(chars@).take(chars.len() as int) =~= single_line(chars@));
        }
    }
    line
}

/// The terminal hyperlink `[link]` to a post.
fn link(id: &str) -> (text: String)
    ensures
        text@ == link_text(id@),
{
    let mut text = String::from_str("\x1b]8;;https://x.com/i/status/");
    text.append(id);
    text.append("\x1b\\[link]\x1b]8;;\x1b\\");
    text
}

/// The exec column widths of yesterday's lines; `handle` counts the longest handle
/// without its `@`.
struct Widths {
    handle: usize,
    impressions: usize,
    likes: usize,
    profile_visits: usize,
}

impl Widths {
    spec fn matches(&self, w: ReplyWidths, n: nat) -> bool {
        &&& n > 0 ==> self.handle + 1 == w.handle
        &&& self.impressions == w.impressions
        &&& self.likes == w.likes
        &&& self.profile_visits == w.profile_visits
    }

    fn of(replies: &[Reply]) -> (widths: Widths)
        ensures
            widths.matches(reply_widths(replies@), replies@.len()),
            forall|i: int|
                0 <= i < replies@.len() ==> replies@[i].to_username@.len() <= widths.handle,
    {
        let ghost hs = replies@.map_values(|r: Reply| (r.to_username@.len() + 1) as nat);
        let ghost is = replies@.map_values(|r: Reply| decimal(r.impressions as nat).len());
        let ghost ls = replies@.map_values(|r: Reply| decimal(r.likes as nat).len());
        let ghost ps = replies@.map_values(|r: Reply| decimal(r.profile_visits as nat).len());
        let mut w = Widths { handle: 0, impressions: 0, likes: 0, profile_visits: 0 };
        for i in 0..replies.len()
            invariant
                hs == replies@.map_values(|r: Reply| (r.to_username@.len() + 1) as nat),
                is == replies@.map_values(|r: Reply| decimal(r.impressions as nat).len()),
                ls == replies@.map_values(|r: Reply| decimal(r.likes as nat).len()),
                ps == replies@.map_values(|r: Reply| decimal(r.profile_visits as nat).len()),
                i > 0 ==> w.handle + 1 == seq_max(hs.take(i as int)),
                forall|k: int| 0 <= k < i ==> replies@[k].to_username@.len() <= w.handle,
                w.impressions == seq_max(is.take(i as int)),
                w.likes == seq_max(ls.take(i as int)),
                w.profile_visits == seq_max(ps.take(i as int)),
        {
            let r = &replies[i];
            let h = r.to_username.as_str().unicode_len();
            proof {
                lemma_seq_max_push(hs.take(i as int), hs[i as int]);
                lemma_seq_max_push(is.take(i as int), is[i as int]);
                lemma_seq_max_push(ls.take(i as int), ls[i as int]);
                lemma_seq_max_push(ps.take(i as int), ps[i as int]);
                assert(hs.take(i + 1) =~= hs.take(i as int).push(hs[i as int]));
                assert(is.take(i + 1) =~= is.take(i as int).push(is[i as int]));
                assert(ls.take(i + 1) =~= ls.take(i as int).push(ls[i as int]));
                assert(ps.take(i + 1) =~= ps.take(i as int).push(ps[i as int]));
                if i == 0 {
                    assert(hs.take(0) =~= Seq::<nat>::empty());
                }
            }
            if h > w.handle || i == 0 {
                w.handle = h;
            }
            let n = decimal_len(r.impressions);
            if n > w.impressions {
                w.impressions = n;
            }
            let n = decimal_len(r.likes);
            if n > w.likes {
                w.likes = n;
            }
            let n = decimal_len(r.profile_visits);
            if n > w.profile_visits {
                w.profile_visits = n;
            }
        }
        proof {
            assert(hs.take(replies.len() as int) =~= hs);
            assert(is.take(replies.len() as int) =~= is);
            assert(ls.take(replies.len() as int) =~= ls);
            assert(ps.take(replies.len() as int) =~= ps);
        }
        w
    }
}


fn push_reply_line_head(out: &mut String, r: &Reply, offset: i32, widths: &Widths, w: Ghost<ReplyWidths>)
    requires
        -86400 < offset < 86400,
        widths.matches(w@, 1),
        r.to_username@.len() <= widths.handle,
    ensures
        final(out)@ == old(out)@ + reply_line_head(*r, offset as int, w@),
{
    push_clock(out, r.created_at, offset);
    out.append("  ");
    let ghost before_handle = out@;
    out.push('@');
    out.append(r.to_username.as_str());
    push_spaces(out, widths.handle - r.to_username.as_str().unicode_len());
    proof {
        reveal_strlit("@");
        assert(out@ =~= before_handle + pad_right("@"@ + r.to_username@, w@.handle));
    }
    let ghost before_preview = out@;
    out.append("  ");
    let line = preview(r.text.as_str());
    push_padded_right(out, line.as_slice(), PREVIEW_WIDTH);
    proof {
        assert(out@ =~= old(out)@ + reply_line_head(*r, offset as int, w@));
    }
}

fn push_reply_line_numbers(out: &mut String, r: &Reply, widths: &Widths, w: Ghost<ReplyWidths>)
    requires
        widths.matches(w@, 1),
    ensures
        final(out)@ == old(out)@ + reply_line_numbers(*r, w@),
{
    out.append("  ");
    push_number_right_aligned(out, r.impressions, widths.impressions);
    out.append(" impressions  ");
    push_number_right_aligned(out, r.likes, widths.likes);
    out.append(" likes  ");
    let ghost mid = out@;
    push_number_right_aligned(out, r.profile_visits, widths.profile_visits);
    out.append(" profile visits  ");
    let to_post = link(r.id.as_str());
    out.append(to_post.as_str());
    proof {
        assert(out@ =~= old(out)@ + reply_line_numbers(*r, w@));
    }
}

/// Appends one line of yesterday's list.
fn render_line(out: &mut String, r: &Reply, offset: i32, widths: &Widths, w: Ghost<ReplyWidths>)
    requires
        -86400 < offset < 86400,
        widths.matches(w@, 1),
        r.to_username@.len() <= widths.handle,
    ensures
        final(out)@ == old(out)@ + reply_line(*r, offset as int, w@),
{
    push_reply_line_head(out, r, offset, widths, w);
    push_reply_line_numbers(out, r, widths, w);
    proof {
        assert(out@ =~= old(out)@ + reply_line(*r, offset as int, w@));
    }
}

/// Yesterday's section: a header with the number of replies, then one line per
/// reply, newest first, with its local time, handle, preview, impressions, likes,
/// profile visits and link, in aligned columns. `utc_offsets[i]` is how many
/// seconds the local zone is ahead of UTC at the instant of `replies[i]`.
pub fn render(replies: &[Reply], utc_offsets: &[i32]) -> (out: String)
    requires
        utc_offsets.len() == replies.len(),
        forall|i: int| 0 <= i < utc_offsets.len() ==> -86400 < #[trigger] utc_offsets[i] < 86400,
    ensures
        out@ == yesterday_text(replies@, utc_offsets@),
{
    let mut out = String::from_str("Yesterday · ");
    push_decimal(&mut out, replies.len() as u64);
    out.append(" replies");
    if replies.len() == 0 {
        out.append("\nNo replies yesterday.");
        proof {
            assert(out@ =~= yesterday_text(replies@, utc_offsets@));
        }
        return out;
    }
    let order = order_newest_first(replies);
    let ghost ord = as_positions(order@);
    let widths = Widths::of(replies);
    let ghost w = reply_widths(replies@);
    let ghost head = out@;
    let ghost lines = Seq::new(
        ord.len(),
        |k: int| reply_line(replies@[ord[k]], utc_offsets@[ord[k]] as int, w),
    );
    proof {
        assert(head == yesterday_header(replies@.len()));
    }
    for k in 0..order.len()
        invariant
            order@.len() == replies@.len(),
            utc_offsets@.len() == replies@.len(),
            forall|i: int| 0 <= i < utc_offsets.len() ==> -86400 < #[trigger] utc_offsets[i] < 86400,
            ord == as_positions(order@),
            forall|k: int| 0 <= k < order@.len() ==> #[trigger] order@[k] < replies@.len(),
            widths.matches(w, 1),
            forall|i: int|
                0 <= i < replies@.len() ==> replies@[i].to_username@.len() <= widths.handle,
            lines == Seq::new(
                ord.len(),
                |k: int| reply_line(replies@[ord[k]], utc_offsets@[ord[k]] as int, w),
            ),
            out@ == head + prefixed_lines(lines.take(k as int)),
    {
        let i = order[k];
        proof {
            assert(ord[k as int] == i as int);
        }
        out.append("\n");
        render_line(&mut out, &replies[i], utc_offsets[i], &widths, Ghost(w));
        proof {
            assert(lines.take(k + 1).drop_last() =~= lines.take(k as int));
            assert(lines[k as int] == reply_line(replies@[i as int], utc_offsets@[i as int] as int, w));
        }
    }
    proof {
        assert(lines.take(order.len() as int) =~= lines);
        assert(ord == newest_first_order(replies@));
        assert(out@ =~= yesterday_text(replies@, utc_offsets@));
    }
    out
}

// ---------------------------------------------------------------- accounts

/// The handle as a terminal hyperlink to the account's profile.
pub open spec fn account_link_text(handle: Seq<char>) -> Seq<char> {
    "\x1b]8;;https://x.com/"@ + handle + "\x1b\\@"@ + handle + "\x1b]8;;\x1b\\"@
}

/// The column widths of the accounts lines: the widest rank, the widest handle with
/// its `@`, the widest rounded average and the widest reply count.
pub struct RankWidths {
    pub rank: nat,
    pub handle: nat,
    pub avg: nat,
    pub count: nat,
}

pub open spec fn rank_widths(ranks: Seq<AccountRank>) -> RankWidths {
    RankWidths {
        rank: decimal(ranks.len()).len(),
        handle: seq_max(ranks.map_values(|a: AccountRank| (a.handle@.len() + 1) as nat)),
        avg: seq_max(
            ranks.map_values(
                |a: AccountRank|
                    decimal(rounded_average(a.total_impressions as nat, a.reply_count as nat)).len(),
            ),
        ),
        count: seq_max(ranks.map_values(|a: AccountRank| decimal(a.reply_count as nat).len())),
    }
}

/// One line of the accounts section: the rank, the linked handle padded to the
/// handle column, the rounded average impressions and the reply count.
pub open spec fn account_line(position: nat, a: AccountRank, w: RankWidths) -> Seq<char> {
    account_line_head(position, a, w) + account_line_numbers(a, w)
}

/// The rank and the linked, padded handle of a line of the accounts section.
pub open spec fn account_line_head(position: nat, a: AccountRank, w: RankWidths) -> Seq<char> {
    let shown = a.handle@.len() + 1;
    let padding: nat = if w.handle > shown {
        (w.handle - shown) as nat
    } else {
        0
    };
    pad_left(decimal(position), w.rank) + ". "@ + account_link_text(a.handle@) + spaces(padding)
}

/// The average impressions and the reply count of a line of the accounts section.
pub open spec fn account_line_numbers(a: AccountRank, w: RankWidths) -> Seq<char> {
    "  "@ + pad_left(
        decimal(rounded_average(a.total_impressions as nat, a.reply_count as nat)),
        w.avg,
    ) + " avg impressions  "@ + pad_left(decimal(a.reply_count as nat), w.count) + " replies"@
}

/// The accounts section: its title, then one line per account in the given order,
/// ranked from 1, or a note that there is no data.
pub open spec fn accounts_text(ranks: Seq<AccountRank>) -> Seq<char> {
    if ranks.len() == 0 {
        "Accounts"@ + "\nNo data yet."@
    } else {
        let w = rank_widths(ranks);
        "Accounts"@ + prefixed_lines(
            Seq::new(ranks.len(), |k: int| account_line((k + 1) as nat, ranks[k], w)),
        )
    }
}

/// The exec column widths of the accounts lines; `handle` counts the longest
/// handle without its `@`.
struct AccountWidths {
    rank: usize,
    handle: usize,
    avg: usize,
    count: usize,
}

impl AccountWidths {
    spec fn matches(&self, w: RankWidths) -> bool {
        &&& self.rank == w.rank
        &&& self.handle + 1 == w.handle
        &&& self.avg == w.avg
        &&& self.count == w.count
    }

    fn of(ranks: &[AccountRank]) -> (widths: AccountWidths)
        requires
            ranks@.len() > 0,
        ensures
            widths.matches(rank_widths(ranks@)),
            forall|i: int| 0 <= i < ranks@.len() ==> ranks@[i].handle@.len() <= widths.handle,
    {
        let ghost hs = ranks@.map_values(|a: AccountRank| (a.handle@.len() + 1) as nat);
        let ghost avs = ranks@.map_values(
            |a: AccountRank|
                decimal(rounded_average(a.total_impressions as nat, a.reply_count as nat)).len(),
        );
        let ghost cs = ranks@.map_values(|a: AccountRank| decimal(a.reply_count as nat).len());
        let mut w = AccountWidths {
            rank: decimal_len(ranks.len() as u64),
            handle: 0,
            avg: 0,
            count: 0,
        };
        for i in 0..ranks.len()
            invariant
                hs == ranks@.map_values(|a: AccountRank| (a.handle@.len() + 1) as nat),
                avs == ranks@.map_values(
                    |a: AccountRank|
                        decimal(
                            rounded_average(a.total_impressions as nat, a.reply_count as nat),
                        ).len(),
                ),
                cs == ranks@.map_values(|a: AccountRank| decimal(a.reply_count as nat).len()),
                w.rank == decimal(ranks@.len()).len(),
                i > 0 ==> w.handle + 1 == seq_max(hs.take(i as int)),
                forall|k: int| 0 <= k < i ==> ranks@[k].handle@.len() <= w.handle,
                w.avg == seq_max(avs.take(i as int)),
                w.count == seq_max(cs.take(i as int)),
        {
            let a = &ranks[i];
            let h = a.handle.as_str().unicode_len();
            proof {
                lemma_seq_max_push(hs.take(i as int), hs[i as int]);
                lemma_seq_max_push(avs.take(i as int), avs[i as int]);
                lemma_seq_max_push(cs.take(i as int), cs[i as int]);
                assert(hs.take(i + 1) =~= hs.take(i as int).push(hs[i as int]));
                assert(avs.take(i + 1) =~= avs.take(i as int).push(avs[i as int]));
                assert(cs.take(i + 1) =~= cs.take(i as int).push(cs[i as int]));
                if i == 0 {
                    assert(hs.take(0) =~= Seq::<nat>::empty());
                }
            }
            if h > w.handle || i == 0 {
                w.handle = h;
            }
            let n = decimal_len(a.rounded_avg_impressions());
            if n > w.avg {
                w.avg = n;
            }
            let n = decimal_len(a.reply_count as u64);
            if n > w.count {
                w.count = n;
            }
        }
        proof {
            assert(hs.take(ranks.len() as int) =~= hs);
            assert(avs.take(ranks.len() as int) =~= avs);
            assert(cs.take(ranks.len() as int) =~= cs);
        }
        w
    }
}

/// The handle as a terminal hyperlink to the account's profile.
fn account_link(handle: &str) -> (text: String)
    ensures
        text@ == account_link_text(handle@),
{
    let mut text = String::from_str("\x1b]8;;https://x.com/");
    text.append(handle);
    text.append("\x1b\\@");
    text.append(handle);
    text.append("\x1b]8;;\x1b\\");
    text
}

/// Appends one line of the accounts section.
fn render_account_line(
    out: &mut String,
    position: usize,
    a: &AccountRank,
    widths: &AccountWidths,
    w: Ghost<RankWidths>,
)
    requires
        widths.matches(w@),
        a.handle@.len() <= widths.handle,
    ensures
        final(out)@ == old(out)@ + account_line(position as nat, *a, w@),
{
    push_number_right_aligned(out, position as u64, widths.rank);
    out.append(". ");
    let linked = account_link(a.handle.as_str());
    out.append(linked.as_str());
    push_spaces(out, widths.handle - a.handle.as_str().unicode_len());
    proof {
        assert(out@ =~= old(out)@ + account_line_head(position as nat, *a, w@));
    }
    let ghost mid = out@;
    out.append("  ");
    push_number_right_aligned(out, a.rounded_avg_impressions(), widths.avg);
    out.append(" avg impressions  ");
    push_number_right_aligned(out, a.reply_count as u64, widths.count);
    out.append(" replies");
    proof {
        assert(out@ =~= mid + account_line_numbers(*a, w@));
        assert(out@ =~= old(out)@ + account_line(position as nat, *a, w@));
    }
}

/// The accounts section: the title `Accounts`, then one line per account, ranked
/// from 1 in the given order, with the handle linked to its profile, the average
/// impressions rounded to a whole number and the reply count, in aligned columns;
/// or `No data yet.` when there are no accounts.
pub fn render_accounts(ranks: &[AccountRank]) -> (out: String)
    ensures
        out@ == accounts_text(ranks@),
{
    let mut out = String::from_str("Accounts");
    if ranks.len() == 0 {
        out.append("\nNo data yet.");
        proof {
            assert(out@ =~= accounts_text(ranks@));
        }
        return out;
    }
    let widths = AccountWidths::of(ranks);
    let ghost w = rank_widths(ranks@);
    let ghost head = out@;
    let ghost lines = Seq::new(
        ranks@.len(),
        |k: int| account_line((k + 1) as nat, ranks@[k], w),
    );
    for k in 0..ranks.len()
        invariant
            widths.matches(w),
            w == rank_widths(ranks@),
            forall|i: int| 0 <= i < ranks@.len() ==> ranks@[i].handle@.len() <= widths.handle,
            lines == Seq::new(
                ranks@.len(),
                |k: int| account_line((k + 1) as nat, ranks@[k], w),
            ),
            out@ == head + prefixed_lines(lines.take(k as int)),
    {
        out.append("\n");
        render_account_line(&mut out, k + 1, &ranks[k], &widths, Ghost(w));
        proof {
            assert(lines.take(k + 1).drop_last() =~= lines.take(k as int));
        }
    }
    proof {
        assert(lines.take(ranks.len() as int) =~= lines);
        assert(out@ =~= accounts_text(ranks@));
    }
    out
}
} // verus!
