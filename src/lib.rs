//! Min-hash HyperLogLog sketches and the synchronisation logic of a
//! distributed proof-of-work cardinality estimator.

pub mod bank;
pub mod catalog;
pub mod client;
pub mod decimal;
pub mod encoding;
pub mod pipeline;
pub mod seeds;
pub mod server;
pub mod sketch;
pub mod urls;
pub mod worker;

pub use bank::{FunctionInfo, HashSample, Submission, SubmissionOrder, SubmissionState};
pub use sketch::{HyperLogLog, DEFAULT_HLL_BITS, EMPTY_REGISTER, MAX_HLL_BITS};
pub use worker::LocalHyperLogLog;
