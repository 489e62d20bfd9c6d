//! Configuration and what is asked of the machine.

pub mod arguments;
pub mod dns;
pub mod text;
pub mod utils;
