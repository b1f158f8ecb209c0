//! Following a database: which tables, how a session starts and ends, and how
//! its rows are applied.

pub mod apply;
pub mod create;
pub mod dump;
pub mod observer;
pub mod runtime;
pub mod shown;
pub mod supervise;
