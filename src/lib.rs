//! Per-segment bitrate search for lossy audio re-encoding.
//!
//! Scores are fixed-point numbers counted in millionths (`SCORE_SCALE` units
//! make one point of the quality scale).
pub mod decimal;
pub mod duration;
pub mod metric;
pub mod quality;
pub mod reassemble;
pub mod schedule;
pub mod search;
pub mod setup;
