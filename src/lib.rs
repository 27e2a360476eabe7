//! Device authentication by rotating signed challenges, and an at-most-once
//! mailbox that fans messages out to a recipient's devices.

pub mod error;
pub mod keys;
pub mod system;
pub mod device;
pub mod session;
pub mod message;
pub mod gate;
pub mod user;
