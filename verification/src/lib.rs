//! Boot sequencing and housekeeping for a mail-server core.
//!
//! The crate models two infrastructure subsystems: a staged boot pipeline
//! (configuration resolution, privilege ordering, seeding of generated
//! settings, publication of an immutable shared-core snapshot) and a
//! housekeeper scheduler (a min-queue of periodic actions driven by timer
//! wake-ups and control events, with single-flight indexing).

pub mod boot;
pub mod patterns;
pub mod config;
pub mod cron;
pub mod queue;
pub mod quickstart;
pub mod scheduler;
pub mod shared;
pub mod strutil;
pub mod sys;
