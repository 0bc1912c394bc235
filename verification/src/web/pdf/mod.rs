//! PDF generation.

pub mod world;
