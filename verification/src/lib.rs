//! The worker node of a distributed job runner: a bounded, content-addressed
//! artifact cache with least-recently-used eviction, the dispatcher that moves
//! jobs from arrival to completion, and the admission checks made at start-up.
//!
//! Nothing here opens a socket, starts a process or waits. The dispatcher
//! takes one message and answers with the actions to perform; the cache
//! reaches the disk through a file system that the program around the
//! library brings along.

pub mod cache;
pub mod cache_laws;
pub mod cache_model;
pub mod client;
pub mod directive;
pub mod dispatcher;
pub mod dispatcher_laws;
pub mod fs;
pub mod go_test;
pub mod ids;
pub mod job;
pub mod job_table;
pub mod layer_table;
pub mod layout;
pub mod limits;
pub mod lines;
pub mod pattern;
pub mod pool;
pub mod root;
pub mod run;
pub mod seq_util;
pub mod test_runner;
pub mod text;
pub mod wire;
