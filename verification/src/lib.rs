//! Core of a small request server: a fixed-size worker pool fed by a FIFO
//! dispatch channel, plus the pure formatting and routing logic that the
//! surrounding I/O shell calls into.

pub mod dispatch;
pub mod http;
pub mod logline;
pub mod pool;
