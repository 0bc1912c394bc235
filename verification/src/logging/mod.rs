//! Logging.

pub mod noise;
