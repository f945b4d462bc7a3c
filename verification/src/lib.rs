//! Gateway to an externally provisioned `Maths-Lang` interpreter.
//!
//! The interpreter is an independently built executable that reads a script
//! on standard input and prints a line `result=<number>` when the script
//! computes a final value.  This crate holds the verified core of the
//! gateway: resolving the fixed provisioning layout (where the interpreter
//! source is fetched to and where its executable ends up), scanning the
//! interpreter's output for the first `result=` line, and the gateway state
//! that carries the executable path and the most recent captured result.
//! The surrounding process work (fetching and building the interpreter,
//! spawning it, serving HTTP) is unverified I/O that lives outside this
//! library and hands plain strings in and out.

pub mod gateway;
pub mod output;
pub mod provision;

pub use gateway::Maths;
pub use provision::build_return_executable;
