//! Rules around AWS services.

pub mod dynamodb;
pub mod s3;
