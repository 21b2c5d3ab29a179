//! Core of a line-oriented chat server: command parsing, the shared session
//! registry (nicknames, channel membership, operator assignment), and the
//! dispatch engine that turns an inbound command into addressed outbound
//! messages. Transport I/O and wire rendering live outside this crate.

pub mod bytes;
pub mod command;
pub mod model;
pub mod registry;
pub mod dispatch;
pub mod laws;
