//! Spans of time between two instants, and the local calendar days they cover.
use vstd::prelude::*;

verus! {

/// Where a local calendar day begins, as the zone's rules place it: the earliest
/// instant at which the local clock reads 00:00 that day, if it ever does, and the
/// earliest at which it reads 01:00, if it ever does. Instants are nanoseconds
/// since 1970-01-01T00:00:00Z.
#[derive(Clone, Copy, Debug)]
pub struct DayStart {
    pub midnight: Option<i128>,
    pub one_am: Option<i128>,
}

/// The day begins at local midnight, or at 01:00 on a day whose midnight the clock
/// skips.
pub open spec fn day_begins(day: DayStart) -> int
    recommends
        day.midnight is Some || day.one_am is Some,
{
    match day.midnight {
        Some(t) => t as int,
        None => day.one_am->0 as int,
    }
}

/// The first instant of a local calendar day.
pub fn start_of_day(day: &DayStart) -> (start: i128)
    requires
        day.midnight is Some || day.one_am is Some,
    ensures
        start == day_begins(*day),
{
    match day.midnight {
        Some(t) => t,
        None => day.one_am.unwrap(),
    }
}

/// The instants from `start` up to but not including `end`, in nanoseconds since
/// 1970-01-01T00:00:00Z.
#[derive(Clone, Copy, Debug)]
pub struct Window {
    pub start: i128,
    pub end: i128,
}

/// `at` lies in the window: at or after its start and before its end.
pub open spec fn in_window(w: Window, at: int) -> bool {
    w.start <= at < w.end
}

/// Yesterday: from the start of yesterday to the start of today.
pub open spec fn yesterday_window(yesterday: DayStart, today: DayStart) -> Window {
    Window { start: day_begins(yesterday) as i128, end: day_begins(today) as i128 }
}

/// Today so far: from the start of today up to now.
pub open spec fn today_window(today: DayStart, now: i128) -> Window {
    Window { start: day_begins(today) as i128, end: now }
}

/// A day whose beginning the zone's rules place somewhere.
pub open spec fn has_start(day: DayStart) -> bool {
    day.midnight is Some || day.one_am is Some
}

impl Window {
    /// The whole of yesterday in the local zone, given where yesterday and today
    /// begin.
    pub fn yesterday(yesterday: &DayStart, today: &DayStart) -> (w: Window)
        requires
            has_start(*yesterday),
            has_start(*today),
        ensures
            w == yesterday_window(*yesterday, *today),
    {
        Window { start: start_of_day(yesterday), end: start_of_day(today) }
    }

    /// Today in the local zone up to `now`, given where today begins.
    pub fn today(today: &DayStart, now: i128) -> (w: Window)
        requires
            has_start(*today),
        ensures
            w == today_window(*today, now),
    {
        Window { start: start_of_day(today), end: now }
    }

    /// Whether `at` lies in the window.
    pub fn contains(&self, at: i128) -> (inside: bool)
        ensures
            inside == in_window(*self, at as int),
    {
        self.start <= at && at < self.end
    }
}

/// Yesterday ends where today begins, so the two windows neither overlap nor leave
/// a gap.
pub proof fn yesterday_meets_today(yesterday: DayStart, today: DayStart, now: i128)
    requires
        has_start(yesterday),
        has_start(today),
    ensures
        yesterday_window(yesterday, today).end == today_window(today, now).start,
        forall|at: int|
            !(in_window(yesterday_window(yesterday, today), at) && in_window(
                today_window(today, now),
                at,
            )),
{
}

/// The instant at which today begins belongs to today (once now is past it) and
/// not to yesterday.
pub proof fn start_of_today_is_today(yesterday: DayStart, today: DayStart, now: i128)
    requires
        has_start(yesterday),
        has_start(today),
        day_begins(today) < now,
    ensures
        in_window(today_window(today, now), day_begins(today)),
        !in_window(yesterday_window(yesterday, today), day_begins(today)),
{
}

/// A window holds its start and not its end.
pub proof fn window_holds_start_not_end(w: Window)
    requires
        w.start < w.end,
    ensures
        in_window(w, w.start as int),
        !in_window(w, w.end as int),
{
}

} // verus!
