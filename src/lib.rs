//! A supervisor for ad hoc and recurring OS processes: the process table,
//! its lifecycle rules, and the scheduler that keeps named jobs running.

pub mod console;
pub mod entry;
pub mod launch;
pub mod liveness;
pub mod schedule;
pub mod table;
pub mod text;
