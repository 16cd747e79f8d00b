//! Timing metadata of a rhythm-game beatmap: timing points, musically
//! relative time locations, and the conversions between relative locations
//! and absolute millisecond offsets.
//!
//! Timing points live in one collection (a `Vec`) and refer to each other by
//! index. Tempos and measure offsets are exact fractions, so conversions are
//! computed in exact arithmetic and rounded toward zero only at the end.

pub mod apiv1;
pub mod hitsounds;
pub mod laws;
pub mod rational;
pub mod snapping;
pub mod timing;

pub use apiv1::UserLookup;
pub use hitsounds::{SampleInfo, SampleSet};
pub use rational::Rational;
pub use timing::{assign_parents, in_time_order, timing_point_line, TimingLine, TimeLocation, TimingError, TimingPoint, TimingPointKind};
