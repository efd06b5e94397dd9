//! Verified core of a market-surveillance data plane: subscription scheduling,
//! churn-limited subscription management, order-book replicas with dual-tier
//! snapshotting, and the bucketing logic of a time-partitioned columnar writer.
//!
//! Numbers that venues and files hold as decimal fractions (prices, sizes,
//! scores, probabilities, confidences) are fixed-point here: an integer
//! counts millionths. Times are integers of milliseconds.

pub mod text;
pub mod keys;
pub mod ranking;
pub mod config;
pub mod venue;
pub mod polymarket;
pub mod timebucket;
pub mod schema;
pub mod book;
pub mod metrics;
pub mod scoring;
pub mod scheduler;
pub mod subscriptions;
pub mod snapshotter;
pub mod paths;
pub mod storage;
pub mod collector;
pub mod rules;
