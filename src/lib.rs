//! Builds the registration report of a competition: participants grouped by
//! race, each with the special categories of that race they belong to.
//!
//! The rows come from a loader as flat, sorted sequences; this crate merges
//! them into the nested report, walking the participant rows once.

pub mod flags;
pub mod grouping;
pub mod model;
pub mod report;
