//! Replay planning for captured HTTP traffic.
//!
//! A capture log (HAR) lists the requests of a recorded session. This crate
//! turns such a log into a workload: the request paths, grouped into named
//! categories by an ordered list of inclusion and exclusion rules, ready to be
//! replayed against a target host by a load engine.
//!
//! Every function here is verified with Verus. Calls into the `regex`, `url`
//! and `json` crates stand behind small trusted functions, each documented
//! where it is declared.

pub mod capture;
pub mod classifier;
pub mod document;
pub mod driver;
pub mod locator;
pub mod pattern;
pub mod rules;
pub mod workload;
