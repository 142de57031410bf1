//! Statistics over recorded train journeys.
//!
//! A journey is an ordered sequence of telemetry samples, each carrying a
//! cumulative position, a timestamp and an instantaneous speed, all held as
//! plain integers in fixed units chosen by the caller (for example hundredths
//! of a metre and seconds). [`result_analyser`] derives per-journey metrics —
//! net distance, distance-weighted average speed, driving time and its
//! idle-excluded variant — and [`result_analyser_group`] aggregates those
//! metrics over a collection of journeys, memoizing each aggregate on first
//! computation.

pub mod result_analyser;
pub mod result_analyser_group;
