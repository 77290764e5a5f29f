//! Client side of the Cortex storage daemon's RPC protocol.
//!
//! * [`wire`] and [`human`]: the two value models, what the daemon's binary
//!   protocol carries and what the command line reads and prints.
//! * [`bridge`]: the mapping between the two, in both directions.
//! * [`exchange`]: one request/reply exchange, as a state machine that the
//!   caller drives with what its transport reports.
//! * [`command`] and [`help`]: from the command line's commands to requests,
//!   and from names to help topics.
//! * [`msgpack`], [`json`] and [`text`]: the boundaries with `rmpv`,
//!   `serde_json` and the standard library's lossy UTF-8 decoding.
//! * [`ieee`]: floating-point numbers as bit patterns.

pub mod bridge;
pub mod command;
pub mod exchange;
pub mod help;
pub mod human;
pub mod ieee;
pub mod json;
pub mod msgpack;
pub mod text;
pub mod wire;
