//! The coordinator: which agents it takes into the fleet, which submissions it
//! takes into the queue, how a job goes from seed to anchor, and what it answers
//! to auditors.

pub mod job;
pub mod read_api;
pub mod registration;
pub mod run;
pub mod submission;
