//! Ingest pipeline core: write-ahead-log block format and offset reservation,
//! segment writer and replay, shard dispatch, flight and pattern registries,
//! and the producer stream state machine.

pub mod admin;
pub mod batch;
pub mod block;
pub mod checksum;
pub mod config;
pub mod dispatch;
pub mod enrich;
pub mod envelope;
pub mod flight_registry;
pub mod iceberg;
pub mod offset;
pub mod pattern;
pub mod receiver;
pub mod segment;
pub mod wal;
