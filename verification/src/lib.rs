//! Verified building blocks for web services: token handling, request bodies, language
//! negotiation, object storage and table access.

pub mod aws;
pub mod json;
pub mod logging;
pub mod natural;
pub mod text;
pub mod text_map;
pub mod web;
