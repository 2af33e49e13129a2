//! Attendance engine: a rolling 04:00 (UTC+8) day boundary, an idempotent
//! check-in ledger over a member roster, daily attendance reports, and a
//! multi-day absence scanner.

pub mod calendar;
pub mod clock;
pub mod daka;
pub mod ledger;
pub mod models;
pub mod report;
pub mod scan;
pub mod service;
pub mod store;
pub mod textfmt;
