//! Counting scheduled sessions over a range of calendar dates.
//!
//! A weekly pattern says how many sessions each weekday contributes, a set of
//! excluded dates removes single days, and the counter walks every day of an
//! inclusive range once, tallying the sessions and the distinct ISO weeks it
//! passes through.

pub mod calendar;
pub mod date;
pub mod text;
pub mod display;
pub mod range;
pub mod exclusion;
pub mod counter;
pub mod report;
