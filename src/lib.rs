//! Drivers that move items from a pull-based producer into a push-based
//! consumer under a cooperative, poll-driven model: a flush driver and a
//! send-all driver, with a fusing adapter for the producer.

pub mod flush;
pub mod laws;
pub mod send_all;
pub mod sink;
pub mod stream;
pub mod task;
