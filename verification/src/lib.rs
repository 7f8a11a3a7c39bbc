//! Verified core of a course-catalog crawler: a randomized work queue, a
//! rate-limited scheduler with completion detection, the per-task handler
//! decisions, and the canonicalization pass that turns a raw crawl snapshot
//! into a published semester document with stable, collision-resistant ids.

pub mod canon;
pub mod digest;
pub mod extract;
pub mod handler;
pub mod model;
pub mod order;
pub mod path;
pub mod queue;
pub mod retry;
pub mod scheduler;
pub mod strutil;
pub mod timefmt;
