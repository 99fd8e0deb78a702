//! A solar clock: civil time warped so that sunrise, solar transit and sunset
//! fall on configured times of day in a fixed reference offset.
//!
//! The crate holds the exact, integer part of the calculation:
//!
//! - `instant`: absolute instants, fixed offsets, times of day;
//! - `calendar`: the three calendar days around an instant;
//! - `events`: the solar events of a day, placed from its midnight;
//! - `refine`: the golden-section search that refines a transit;
//! - `anchors`: the anchor points of the interpolation and their order;
//! - `clock`: the checks that guard the interpolation, what is known
//!   without it, and the shift of the input to the solar-clock instant.
//!
//! The trigonometry that places the events and the evaluation of the curve
//! between two anchors work on floating-point numbers and are the caller's.

pub mod instant;
pub mod calendar;
pub mod events;
pub mod refine;
pub mod anchors;
pub mod clock;
