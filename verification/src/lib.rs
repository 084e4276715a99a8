//! Verified core of a set of small service and tooling programs:
//!
//! - `echo`, `io_error`, `stream_server`: the gRPC echo service's answers,
//!   the search for the I/O failure behind a transport error, and the
//!   handles a running server records;
//! - `decimal`, `line_writer`, `task_gate`: the records that the parallel
//!   file writer appends and the admission of its writer tasks;
//! - `resources`: the choice of the application's configuration text;
//! - `affinity`: dealing worker tasks to CPU cores and their busy loop;
//! - `shared_map`: a program-wide string map;
//! - `greeting`: speakers whose lines are joined.
pub mod affinity;
pub mod decimal;
pub mod echo;
pub mod greeting;
pub mod io_error;
pub mod line_writer;
pub mod resources;
pub mod shared_map;
pub mod stream_server;
pub mod task_gate;
