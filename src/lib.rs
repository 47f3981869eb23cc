//! Coordinator core of a concurrent job dispatcher: the event loop's
//! decisions, the table of running jobs and its cancellation sweep, the
//! worker pool's activity counter, and the lines that report each job.

pub mod dispatch;
pub mod pool;
pub mod registry;
pub mod report;
pub mod template;
