//! The state of the mirrors and of the machine.

pub mod sources;
pub mod sys_metrics;
pub mod tx_rate;
