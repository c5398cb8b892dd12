//! The decisions of a live probe: what to send, when to stop reading, and
//! what to make of what came back. Sockets and clocks belong to the
//! application.

pub mod drive;
pub mod probe;
