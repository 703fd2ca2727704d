//! A TCP echo server's decision logic, verified.
//!
//! `session` decides, for one connection, what to do after each read and
//! each write; `listener` decides what the accepting side does after binding
//! and after each accept. The sockets and threads themselves are driven by
//! the program around this library, which hands each outcome in as an event
//! and performs the action it gets back.

pub mod session;
pub mod listener;
