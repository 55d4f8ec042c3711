//! The core of a concurrent TCP port scanner: which ports to try, how many
//! attempts may run at once, and how the open ports are collected and listed.
//!
//! Nothing here touches the network. A caller asks [`scanner::Scanner`] what
//! to do next, makes the connection attempts itself, and hands back what
//! happened to each.

pub mod arguments;
pub mod limiter;
pub mod open_ports;
pub mod report;
pub mod scanner;
