//! fastjump: jump to a frequently visited directory from a short fuzzy pattern.
//!
//! The library holds the verified core: the configuration rules, the visit
//! cache (a persisted map from directory path to visit count), the fuzzy
//! scoring policy with its cache bonus, the per-worker scanning decisions,
//! and the final aggregation of worker results.  Directory listing, file
//! reading and writing, thread spawning and the command line stay outside,
//! in a thin unverified shell that feeds this library plain values.

pub mod cache;
pub mod config;
pub mod fj_matcher;
