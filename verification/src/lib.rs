//! A streaming diff pipeline: recorded interactions are compared against a
//! fixed description of an API, a bounded number at a time, and every
//! discrepancy found is handed over, in order, to a single writer.
//!
//! The library holds the decisions of that pipeline and the proofs of what it
//! guarantees. Reading the input, running the comparison, waiting and writing
//! the output are left to the program that drives it: the program asks each
//! part what to do next, does it, and reports what came of it.
//!
//! - [`budget`]: how many comparisons may run at once.
//! - [`record`]: findings, tags, and the envelopes that are written.
//! - [`fault`]: what can go wrong, and how far each fault reaches.
//! - [`dispatcher`]: starts units of work within the budget.
//! - [`worker`]: the unit of work of one record.
//! - [`channel`]: the bounded queue between the units of work and the sink.
//! - [`sink`]: the one consumer of the queue.
//! - [`coordinator`]: ends the run when both halves have ended, or one has
//!   failed.
//! - [`run`], [`laws`], [`order`]: a whole run as a transition system, and
//!   what holds of every run.

pub mod budget;
pub mod channel;
pub mod coordinator;
pub mod dispatcher;
pub mod fault;
pub mod laws;
pub mod order;
pub mod record;
pub mod run;
pub mod sink;
pub mod worker;
