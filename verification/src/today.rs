//! Today's reply count, kept for an hour so that the API is not asked on every run.
use vstd::prelude::*;

use crate::store::Stored;
use crate::text::{decimal, push_decimal};

verus! {

/// An instant, in nanoseconds since 1970-01-01T00:00:00Z, with the local calendar
/// day it falls on (days since 0001-01-01, which is day 1).
#[derive(Clone, Copy, Debug)]
pub struct LocalStamp {
    pub utc_ns: i128,
    pub local_day: i32,
}

/// What the goal file holds: the count and when it was fetched.
#[derive(Debug)]
pub struct StoredGoal {
    pub count: u64,
    pub fetched_at: LocalStamp,
}

/// How long a fetched count stays fresh: one hour, in nanoseconds.
pub const FRESH_FOR_NS: i128 = 3_600_000_000_000;

/// A stored count is stale once the local day has changed or more than an hour
/// has passed since it was fetched.
pub open spec fn stale(fetched_at: LocalStamp, now: LocalStamp) -> bool {
    fetched_at.local_day != now.local_day || now.utc_ns - fetched_at.utc_ns > FRESH_FOR_NS
}

/// Whether a stored count is too old to show.
pub fn is_stale(stored: &StoredGoal, now: &LocalStamp) -> (old_count: bool)
    ensures
        old_count == stale(stored.fetched_at, *now),
{
    if stored.fetched_at.local_day != now.local_day {
        return true;
    }
    match now.utc_ns.checked_sub(stored.fetched_at.utc_ns) {
        Some(elapsed) => elapsed > FRESH_FOR_NS,
        None => now.utc_ns > stored.fetched_at.utc_ns,
    }
}

/// The file that keeps today's count.
pub struct TodayGoal {
    path: String,
}

/// Why today's count could not be loaded.
#[derive(Debug)]
pub enum TodayGoalError {
    Io(std::io::Error),
    Json(serde_json::Error),
}

/// The name of the temporary file a save writes before moving it into place.
pub open spec fn goal_temp_name(file_name: Option<Seq<char>>, pid: u32) -> Seq<char> {
    let name = match file_name {
        Some(name) => name,
        None => "today.json"@,
    };
    name + ".tmp-"@ + decimal(pid as nat)
}

impl TodayGoal {
    pub fn new(path: String) -> (goal: TodayGoal)
        ensures
            goal.path() == path,
    {
        TodayGoal { path }
    }

    pub closed spec fn path(&self) -> String {
        self.path
    }

    /// The file that keeps the count.
    pub fn file(&self) -> (path: &String)
        ensures
            *path == self.path(),
    {
        &self.path
    }

    /// Today's count from what reading the goal file gave: none when there is no
    /// file or the count is stale, the count when it is fresh, and an error when
    /// the file cannot be read or parsed.
    pub fn load(&self, file: Stored<StoredGoal>, now: &LocalStamp) -> (count: Result<
        Option<u64>,
        TodayGoalError,
    >)
        ensures
            match file {
                Stored::Missing => count == Ok::<Option<u64>, TodayGoalError>(None),
                Stored::Unreadable(e) => count == Err::<Option<u64>, TodayGoalError>(
                    TodayGoalError::Io(e),
                ),
                Stored::Malformed(e) => count == Err::<Option<u64>, TodayGoalError>(
                    TodayGoalError::Json(e),
                ),
                Stored::Found(g) => count == Ok::<Option<u64>, TodayGoalError>(
                    if stale(g.fetched_at, *now) {
                        None
                    } else {
                        Some(g.count)
                    },
                ),
            },
    {
        match file {
            Stored::Missing => Ok(None),
            Stored::Unreadable(e) => Err(TodayGoalError::Io(e)),
            Stored::Malformed(e) => Err(TodayGoalError::Json(e)),
            Stored::Found(g) => {
                if is_stale(&g, now) {
                    Ok(None)
                } else {
                    Ok(Some(g.count))
                }
            },
        }
    }

    /// What a save stores: the count, fetched now.
    pub fn record(count: u64, now: LocalStamp) -> (stored: StoredGoal)
        ensures
            stored == (StoredGoal { count, fetched_at: now }),
    {
        StoredGoal { count, fetched_at: now }
    }

    /// The temporary file a save writes next to the goal file before renaming it:
    /// the goal file's name (or `today.json`), `.tmp-` and the process id.
    pub fn temp_name(file_name: Option<&str>, pid: u32) -> (name: String)
        ensures
            name@ == goal_temp_name(
                match file_name {
                    Some(n) => Some(n@),
                    None => None,
                },
                pid,
            ),
    {
        let mut name = match file_name {
            Some(n) => String::from_str(n),
            None => String::from_str("today.json"),
        };
        name.append(".tmp-");
        push_decimal(&mut name, pid as u64);
        name
    }
}

/// A count fetched now is fresh now: a save followed by a load in the same instant
/// gives the saved count back.
pub proof fn fresh_when_just_fetched(now: LocalStamp)
    ensures
        !stale(now, now),
{
}

} // verus!
