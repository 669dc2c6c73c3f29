//! Supervision logic for a child process whose standard input is shared by
//! the clients of a local socket.
//!
//! The crate holds the decisions of such a supervisor as verified code: how
//! a byte stream is cut into lines, which connections are live, what a
//! worker does after each read and write, and how the supervising loop
//! answers a readiness event. The system calls themselves are left to the
//! program that embeds the crate.

pub mod connection;
pub mod errors;
pub mod lines;
pub mod registry;
pub mod server;
