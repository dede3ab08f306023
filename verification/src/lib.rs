//! Change detection for S3 buckets.
//!
//! A run lists a bucket page by page, compares every object with the state that earlier runs left
//! in a local SQLite database, hands each difference to a consumer, and records what was handed
//! over.
pub mod behaviour;
pub mod builder;
pub mod completion;
pub mod config;
pub mod invariants;
pub mod laws;
pub mod ledger;
pub mod listing;
pub mod model;
pub mod object;
pub mod protocol;
pub mod remotes;
pub mod repetition;
pub mod s3;
pub mod secret;
pub mod statement;
pub mod sync;
pub mod text;
pub mod timestamp;
pub mod views;

pub use object::{Change, S3Object};
