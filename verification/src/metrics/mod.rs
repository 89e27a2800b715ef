//! The metrics that come with the library.

pub mod net;
pub mod cpu_load;
pub mod load;
pub mod time;
