//! A daily report for an X account: yesterday's replies and how they did, the
//! accounts whose replies did best, and today's count against the daily goal.
use vstd::prelude::*;

pub mod accounts;
pub mod api;
pub mod config;
pub mod date;
pub mod history;
pub mod oauth;
pub mod order;
pub mod report;
pub mod run;
pub mod store;
pub mod text;
pub mod today;
pub mod window;

verus! {

} // verus!
