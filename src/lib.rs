//! A worker pool whose capacity survives jobs that terminate abnormally.
//!
//! The library holds the parts of the pool that can be stated and proved:
//! the job queue (`queue`), the decision each worker takes after every event
//! (`worker`), a model of how jobs flow through a pool of fixed size
//! (`model`), and the pool's guarantees, proved of every sequence of events
//! (`guarantees`).
pub mod guarantees;
pub mod model;
pub mod queue;
pub mod worker;
