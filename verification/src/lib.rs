//! Token-level prediction analysis for a local language model.
//!
//! Given a tokenized text, the library drives a batched decode over an
//! inference engine, computes for every position the rank and probability
//! the model assigned to the token that actually followed, and derives
//! aggregate statistics from the per-token results. A worker state machine
//! keeps the slow analysis off the caller's thread behind a command and
//! message protocol.

pub mod caller;
pub mod driver;
pub mod metrics;
pub mod result;
pub mod settings;
pub mod worker;

pub use settings::Settings;
pub use worker::{WorkerCommand, WorkerMessage};
