//! A task dispatcher: typed task queues, a priority-with-aging scheduling
//! policy, a dispatch state machine over a pool of workers, and the
//! completion metrics that summarise a run.

pub mod task;
pub mod policy;
pub mod metrics;
pub mod dispatcher;
pub mod clock;
pub mod generator;
