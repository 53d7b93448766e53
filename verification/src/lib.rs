//! Date and time with time zones: the proleptic Gregorian calendar,
//! durations, naive dates and times, offsets from UTC, and the textual forms
//! of date-times.
use vstd::prelude::*;

pub mod calendar;
pub mod datetime;
pub mod duration;
pub mod format;
pub mod items;
pub mod names;
pub mod naive;
pub mod offset;
pub mod ordering;
pub mod parse;
pub mod roundtrip;
pub mod scan;
pub mod text;

verus! {

} // verus!
