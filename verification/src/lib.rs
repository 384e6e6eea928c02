//! Core of a command-line client for a project-management service:
//! a working-day calendar, a daily-quota resolver, a gap calculator and
//! an allocation engine over snapshots of recorded time entries and
//! locally declared time off, together with the configuration values the
//! client keeps on disk.

pub mod date;
pub mod duration;
pub mod config;
pub mod service;
pub mod workload;
pub mod interactive;
