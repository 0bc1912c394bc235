//! Rules around DynamoDB.

pub mod client;
