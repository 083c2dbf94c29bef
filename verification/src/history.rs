//! The replies of each past day, one JSON file per day named after the date.
use vstd::prelude::*;

use crate::api::Reply;
use crate::date::{date_text, format_date, parse_date, parsed_date, valid_day};
use crate::store::Stored;
use crate::text::{chars_of, decimal, push_decimal};

verus! {

broadcast use vstd::seq_lib::group_to_multiset_ensures;

/// The directory that holds one file per day.
pub struct History {
    dir: String,
}

/// Why the history could not be loaded.
#[derive(Debug)]
pub enum HistoryError {
    Io(std::io::Error),
    Json(serde_json::Error),
}

/// The position of the last `.` in a file name, or -1 when there is none.
pub open spec fn last_dot(name: Seq<char>) -> int
    decreases name.len(),
{
    if name.len() == 0 {
        -1
    } else if name.last() == '.' {
        name.len() - 1
    } else {
        last_dot(name.drop_last())
    }
}

/// The stem of a file name whose extension is `json`: the part before the last
/// `.`, which must not be the first character.
pub open spec fn json_stem(name: Seq<char>) -> Option<Seq<char>> {
    let p = last_dot(name);
    if p > 0 && name.skip(p + 1) == "json"@ {
        Some(name.take(p))
    } else {
        None
    }
}

/// The date of a day file's name: a `json` file whose stem reads as a date.
pub open spec fn file_date(name: Seq<char>) -> Option<i32> {
    match json_stem(name) {
        Some(stem) => parsed_date(stem),
        None => None,
    }
}

/// The dates of the day files among the names of a directory's entries, in the
/// order of the names.
pub open spec fn file_dates(names: Seq<String>) -> Seq<i32>
    decreases names.len(),
{
    if names.len() == 0 {
        Seq::empty()
    } else {
        let before = file_dates(names.drop_last());
        match file_date(names.last()@) {
            Some(d) => before.push(d),
            None => before,
        }
    }
}

/// The numbers are in ascending order.
pub open spec fn ascending(days: Seq<i32>) -> bool {
    forall|i: int, j: int| 0 <= i < j < days.len() ==> days[i] <= days[j]
}

/// The replies of the days that had a file, one day after the other.
pub open spec fn joined_days(days: Seq<Option<Vec<Reply>>>) -> Seq<Reply>
    decreases days.len(),
{
    if days.len() == 0 {
        Seq::empty()
    } else {
        joined_days(days.drop_last()) + match days.last() {
            Some(v) => v@,
            None => Seq::empty(),
        }
    }
}

/// How many replies a day had: none when there is no file for it.
pub open spec fn day_count(day: Option<Vec<Reply>>) -> nat {
    match day {
        Some(v) => v@.len(),
        None => 0,
    }
}

/// How many replies the days hold together.
pub open spec fn days_total(days: Seq<Option<Vec<Reply>>>) -> nat
    decreases days.len(),
{
    if days.len() == 0 {
        0
    } else {
        days_total(days.drop_last()) + day_count(days.last())
    }
}

/// Joining the days keeps every reply of every day: the joined history holds as
/// many replies as all the days together, and each day's replies stand in it in
/// full and in order, right after those of the days before it.
pub proof fn joined_days_keep_every_reply(days: Seq<Option<Vec<Reply>>>)
    ensures
        joined_days(days).len() == days_total(days),
        forall|i: int|
            0 <= i < days.len() && (#[trigger] days[i]) is Some ==> joined_days(days).subrange(
                days_total(days.take(i)) as int,
                (days_total(days.take(i)) + day_count(days[i])) as int,
            ) == days[i]->0@,
    decreases days.len(),
{
    if days.len() > 0 {
        let before = days.drop_last();
        joined_days_keep_every_reply(before);
        let joined = joined_days(days);
        let last_part = match days.last() {
            Some(v) => v@,
            None => Seq::empty(),
        };
        assert(joined == joined_days(before) + last_part);
        assert forall|i: int|
            0 <= i < days.len() && (#[trigger] days[i]) is Some implies joined.subrange(
                days_total(days.take(i)) as int,
                (days_total(days.take(i)) + day_count(days[i])) as int,
            ) == days[i]->0@ by {
            if i == days.len() - 1 {
                assert(days.take(i) =~= before);
                assert(joined.subrange(
                    days_total(before) as int,
                    (days_total(before) + day_count(days[i])) as int,
                ) =~= last_part);
            } else {
                assert(days.take(i) =~= before.take(i));
                assert(before[i] == days[i]);
                lemma_days_total_prefix(before, i + 1);
                assert(before.take(i + 1).drop_last() =~= before.take(i));
                assert(before.take(i + 1).last() == before[i]);
                let lo = days_total(days.take(i)) as int;
                let hi = lo + day_count(days[i]);
                assert(hi <= days_total(before));
                assert(joined.subrange(lo, hi) =~= joined_days(before).subrange(lo, hi));
            }
        }
    }
}

proof fn lemma_days_total_prefix(days: Seq<Option<Vec<Reply>>>, n: int)
    requires
        0 <= n <= days.len(),
    ensures
        days_total(days.take(n)) <= days_total(days),
    decreases days.len(),
{
    if n < days.len() {
        assert(days.drop_last().take(n) =~= days.take(n));
        lemma_days_total_prefix(days.drop_last(), n);
    } else {
        assert(days.take(n) =~= days);
    }
}

/// How many days a count of recent days covers.
pub const RECENT_DAYS: i32 = 30;

proof fn lemma_last_dot(name: Seq<char>)
    ensures
        -1 <= last_dot(name) < name.len(),
        last_dot(name) >= 0 ==> name[last_dot(name)] == '.',
        forall|i: int| last_dot(name) < i < name.len() ==> name[i] != '.',
    decreases name.len(),
{
    if name.len() > 0 {
        lemma_last_dot(name.drop_last());
        assert forall|i: int| last_dot(name) < i < name.len() implies name[i] != '.' by {
            if i < name.len() - 1 {
                assert(name.drop_last()[i] == name[i]);
            }
        }
    }
}

/// The stem of a name made of a stem and `.json` is that stem.
proof fn lemma_json_stem_of_name(stem: Seq<char>)
    requires
        stem.len() > 0,
    ensures
        json_stem(stem + ".json"@) == Some(stem),
{
    let name = stem + ".json"@;
    reveal_strlit(".json");
    reveal_strlit("json");
    lemma_last_dot(name);
    let p = stem.len() as int;
    assert(name[p] == '.');
    assert(last_dot(name) == p) by {
        if last_dot(name) < p {
            assert(name[p] != '.');
        }
        if last_dot(name) > p {
            assert(name[last_dot(name)] == '.');
        }
    }
    assert(name.skip(p + 1) =~= "json"@);
    assert(name.take(p) =~= stem);
}

/// Every day file among a directory's entries gives its date to the dates on
/// file: a day saved under `History::file_name(date)` is listed as `date` by
/// `History::dates_on_file`, whatever else the directory holds.
pub proof fn day_files_are_listed(names: Seq<String>, i: int)
    requires
        0 <= i < names.len(),
        file_date(names[i]@) is Some,
    ensures
        file_dates(names).contains(file_date(names[i]@)->0),
    decreases names.len(),
{
    let d = file_date(names[i]@)->0;
    if i == names.len() - 1 {
        assert(file_dates(names).last() == d);
    } else {
        assert(names.drop_last()[i] == names[i]);
        day_files_are_listed(names.drop_last(), i);
        let before = file_dates(names.drop_last());
        let k = choose|k: int| 0 <= k < before.len() && before[k] == d;
        match file_date(names.last()@) {
            Some(e) => assert(file_dates(names)[k] == d),
            None => {},
        }
    }
}

/// The stem of `name` when it is a `json` file name.
fn json_stem_of(name: &str) -> (stem: Option<String>)
    ensures
        match stem {
            Some(s) => json_stem(name@) == Some(s@),
            None => json_stem(name@) is None,
        },
{
    let chars = chars_of(name);
    let mut p: usize = chars.len();
    let mut found = false;
    while p > 0 && !found
        invariant
            p <= chars@.len(),
            chars@ == name@,
            !found ==> forall|i: int| p <= i < chars@.len() ==> chars@[i] != '.',
            found ==> p > 0 && chars@[p - 1] == '.',
            found ==> forall|i: int| p <= i < chars@.len() ==> chars@[i] != '.',
        decreases p + if found {
            0int
        } else {
            1int
        },
    {
        if chars[p - 1] == '.' {
            found = true;
        } else {
            p = p - 1;
        }
    }
    proof {
        lemma_last_dot(name@);
        if found {
            assert(last_dot(name@) == p - 1) by {
                if last_dot(name@) > p - 1 {
                    assert(chars@[last_dot(name@)] == '.');
                }
                if last_dot(name@) < p - 1 {
                    assert(forall|i: int| last_dot(name@) < i < name@.len() ==> name@[i] != '.');
                }
            }
        } else {
            assert(last_dot(name@) == -1) by {
                if last_dot(name@) >= 0 {
                    assert(chars@[last_dot(name@)] == '.');
                }
            }
        }
        reveal_strlit("json");
    }
    if !found || p == 1 {
        return None;
    }
    let dot = p - 1;
    let n = chars.len();
    if n - dot != 5 || chars[dot + 1] != 'j' || chars[dot + 2] != 's' || chars[dot + 3] != 'o'
        || chars[dot + 4] != 'n' {
        proof {
            if name@.skip(dot + 1) == "json"@ {
                assert(name@.skip(dot + 1).len() == 4);
                assert(name@.skip(dot + 1)[0] == 'j');
                assert(name@.skip(dot + 1)[1] == 's');
                assert(name@.skip(dot + 1)[2] == 'o');
                assert(name@.skip(dot + 1)[3] == 'n');
            }
        }
        return None;
    }
    proof {
        assert(name@.skip(dot + 1) =~= "json"@);
    }
    let mut stem = String::new();
    for i in 0..dot
        invariant
            dot < chars@.len(),
            chars@ == name@,
            stem@ == chars@.take(i as int),
    {
        stem.push(chars[i]);
        proof {
            assert(chars@.take(i + 1) =~= chars@.take(i as int).push(chars@[i as int]));
        }
    }
    Some(stem)
}

/// Sorts day numbers in ascending order.
fn sort_days(days: Vec<i32>) -> (sorted: Vec<i32>)
    ensures
        ascending(sorted@),
        sorted@.to_multiset() == days@.to_multiset(),
{
    let mut sorted: Vec<i32> = Vec::new();
    for i in 0..days.len()
        invariant
            ascending(sorted@),
            sorted@.to_multiset() == days@.take(i as int).to_multiset(),
    {
        let d = days[i];
        let mut pos: usize = 0;
        while pos < sorted.len() && sorted[pos] <= d
            invariant
                pos <= sorted@.len(),
                forall|k: int| 0 <= k < pos ==> sorted@[k] <= d,
            decreases sorted@.len() - pos,
        {
            pos = pos + 1;
        }
        let ghost before = sorted@;
        sorted.insert(pos, d);
        proof {
            assert(days@.take(i + 1) =~= days@.take(i as int).push(d));
            assert forall|a: int, b: int| 0 <= a < b < sorted@.len() implies sorted@[a]
                <= sorted@[b] by {
                if b < pos {
                    assert(sorted@[a] == before[a] && sorted@[b] == before[b]);
                } else if b == pos {
                    assert(sorted@[a] == before[a]);
                } else if a > pos {
                    assert(sorted@[a] == before[a - 1] && sorted@[b] == before[b - 1]);
                } else if a == pos {
                    assert(sorted@[b] == before[b - 1]);
                    assert(before[pos as int] > d);
                } else {
                    assert(sorted@[a] == before[a] && sorted@[b] == before[b - 1]);
                }
            }
        }
    }
    proof {
        assert(days@.take(days.len() as int) =~= days@);
    }
    sorted
}

impl History {
    pub fn new(dir: String) -> (history: History)
        ensures
            history.dir() == dir,
    {
        History { dir }
    }

    pub closed spec fn dir(&self) -> String {
        self.dir
    }

    /// The directory that holds the day files.
    pub fn directory(&self) -> (dir: &String)
        ensures
            *dir == self.dir(),
    {
        &self.dir
    }

    /// The name of the file that holds a day's replies: the date and `.json`. The
    /// name reads back as the same date.
    pub fn file_name(date: i32) -> (name: String)
        requires
            valid_day(date as int),
        ensures
            name@ == date_text(date as int) + ".json"@,
            file_date(name@) == Some(date),
    {
        let text = format_date(date);
        let mut name = text.clone();
        name.append(".json");
        proof {
            lemma_json_stem_of_name(text@);
        }
        name
    }

    /// The temporary file a save writes before renaming it into place: the day
    /// file's name, `.tmp-` and the process id.
    pub fn temp_file_name(date: i32, pid: u32) -> (name: String)
        requires
            valid_day(date as int),
        ensures
            name@ == date_text(date as int) + ".json"@ + ".tmp-"@ + decimal(pid as nat),
    {
        let mut name = Self::file_name(date);
        name.append(".tmp-");
        push_decimal(&mut name, pid as u64);
        name
    }

    /// A day's replies from what reading its file gave: none when there is no
    /// file, and an error when it cannot be read or parsed.
    pub fn load(&self, file: Stored<Vec<Reply>>) -> (day: Result<
        Option<Vec<Reply>>,
        HistoryError,
    >)
        ensures
            match file {
                Stored::Missing => day matches Ok(None),
                Stored::Unreadable(e) => day matches Err(HistoryError::Io(f)) && f == e,
                Stored::Malformed(e) => day matches Err(HistoryError::Json(f)) && f == e,
                Stored::Found(v) => day matches Ok(Some(w)) && w == v,
            },
    {
        match file {
            Stored::Missing => Ok(None),
            Stored::Unreadable(e) => Err(HistoryError::Io(e)),
            Stored::Malformed(e) => Err(HistoryError::Json(e)),
            Stored::Found(v) => Ok(Some(v)),
        }
    }

    /// The dates that have a day file, in ascending order, from the names of the
    /// directory's entries; the date of each day file is among them.
    pub fn dates_on_file(names: &[String]) -> (dates: Vec<i32>)
        ensures
            ascending(dates@),
            dates@.to_multiset() == file_dates(names@).to_multiset(),
            forall|i: int|
                0 <= i < names@.len() && (#[trigger] file_date(names@[i]@)) is Some
                    ==> dates@.contains(file_date(names@[i]@)->0),
    {
        let mut found: Vec<i32> = Vec::new();
        for i in 0..names.len()
            invariant
                found@ == file_dates(names@.take(i as int)),
        {
            proof {
                assert(names@.take(i + 1).drop_last() =~= names@.take(i as int));
            }
            match json_stem_of(names[i].as_str()) {
                Some(stem) => match parse_date(stem.as_str()) {
                    Some(d) => found.push(d),
                    None => {},
                },
                None => {},
            }
        }
        proof {
            assert(names@.take(names.len() as int) =~= names@);
        }
        let dates = sort_days(found);
        proof {
            assert forall|i: int|
                0 <= i < names@.len() && (#[trigger] file_date(names@[i]@)) is Some
                    implies dates@.contains(file_date(names@[i]@)->0) by {
                day_files_are_listed(names@, i);
                let d = file_date(names@[i]@)->0;
                assert(file_dates(names@).to_multiset().count(d) > 0);
                assert(dates@.to_multiset().count(d) > 0);
            }
        }
        dates
    }

    /// All the replies of the days that had a file, one day after the other.
    pub fn join_days(days: Vec<Option<Vec<Reply>>>) -> (replies: Vec<Reply>)
        ensures
            replies@ == joined_days(days@),
    {
        let ghost all = days@;
        let mut days = days;
        let mut replies: Vec<Reply> = Vec::new();
        let ghost mut done: int = 0;
        while days.len() > 0
            invariant
                0 <= done <= all.len(),
                days@ == all.skip(done),
                replies@ == joined_days(all.take(done)),
            decreases days.len(),
        {
            let day = days.remove(0);
            proof {
                assert(all.take(done + 1).drop_last() =~= all.take(done));
                assert(day == all[done]);
            }
            match day {
                Some(mut v) => replies.append(&mut v),
                None => {},
            }
            proof {
                done = done + 1;
                assert(days@ =~= all.skip(done));
                assert(replies@ =~= joined_days(all.take(done)));
            }
        }
        proof {
            assert(all.take(done) =~= all);
        }
        replies
    }

    /// The last thirty dates up to `today`, oldest first.
    pub fn recent_dates(today: i32) -> (dates: Vec<i32>)
        requires
            valid_day(today - (RECENT_DAYS - 1)),
            valid_day(today as int),
        ensures
            dates@.len() == RECENT_DAYS,
            forall|i: int| 0 <= i < RECENT_DAYS ==> dates@[i] == today - (RECENT_DAYS - 1) + i,
    {
        let mut dates: Vec<i32> = Vec::new();
        let mut days_ago: i32 = RECENT_DAYS;
        while days_ago > 0
            invariant
                0 <= days_ago <= RECENT_DAYS,
                valid_day(today - (RECENT_DAYS - 1)),
                valid_day(today as int),
                dates@.len() == RECENT_DAYS - days_ago,
                forall|i: int| 0 <= i < dates@.len() ==> dates@[i] == today - (RECENT_DAYS - 1) + i,
            decreases days_ago,
        {
            days_ago = days_ago - 1;
            dates.push(today - days_ago);
        }
        dates
    }

    /// How many replies each day had, zero for a day without a file.
    pub fn day_counts(days: &[Option<Vec<Reply>>]) -> (counts: Vec<u64>)
        ensures
            counts@.len() == days@.len(),
            forall|i: int| 0 <= i < days@.len() ==> counts@[i] == day_count(#[trigger] days@[i]),
    {
        let mut counts: Vec<u64> = Vec::new();
        for i in 0..days.len()
            invariant
                counts@.len() == i,
                forall|k: int| 0 <= k < i ==> counts@[k] == day_count(#[trigger] days@[k]),
        {
            let n: u64 = match &days[i] {
                Some(v) => v.len() as u64,
                None => 0,
            };
            counts.push(n);
        }
        counts
    }
}

} // verus!
