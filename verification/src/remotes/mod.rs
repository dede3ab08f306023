//! Buckets that are monitored with one database transaction for a whole run.
pub mod aws;
