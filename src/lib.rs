//! A write-side channel over a shared memory block: a fixed header followed by
//! an upstream and a downstream byte ring, which an external observer locates
//! by its magic word and drains on its own.

pub mod channel;
pub mod layout;
pub mod ring;
pub mod stdout;
pub mod theorems;

pub use channel::{Stlinky, StlinkyBuffer};
pub use layout::{HEADER_SIZE, STLINKY_MAGIC};
pub use stdout::{set_stdout, set_stdout_at, stdout};
