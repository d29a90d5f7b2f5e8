//! Dispatch core of a fixed-size worker pool.
//!
//! The pool's threads are driven from outside; every decision they take
//! (which item a free worker runs next, when a worker stops, whether a
//! submission is accepted) is made by the verified state machine here.

mod worker;
mod pool;
mod laws;

pub use worker::WorkerState;
pub use pool::{PoolState, PoolView, Step, SubmitError};
pub use laws::Op;
