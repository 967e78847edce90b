//! Verified core of a feed-to-notification pipeline: idempotent ingestion of
//! polled feed items, concurrency-safe claiming of unprocessed items, keyword
//! and category matching against a subscription registry, and transactional
//! delivery bookkeeping with an audit trail.

pub mod ingest;
pub mod match_engine;
pub mod model;
pub mod normalize;
pub mod registry;
pub mod store;
pub mod text;
pub mod types;
pub mod worker;
