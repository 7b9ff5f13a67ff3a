//! Pattern generation and checking for testing the capacity and integrity of
//! flash drives, with the arithmetic behind it.
pub mod gf;
pub mod block;
pub mod aes;
pub mod pattern;
pub mod report;
pub mod orbit;
pub mod cli;

pub use orbit::find_longest_running_number;
