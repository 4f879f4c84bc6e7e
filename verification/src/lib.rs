//! Finds projects whose build artifacts can be reclaimed and decides which
//! generated directories to remove.

pub mod cleaner;
pub mod cli;
pub mod config;
pub mod constants;
pub mod error;
pub mod paths;
pub mod scanner;
pub mod text;
pub mod units;
pub mod utils;
pub mod validation;
