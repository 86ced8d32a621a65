//! Settings the ingest core reads.
use vstd::prelude::*;

use crate::dispatch::DispatchStrategy;
use crate::wal::SyncPolicy;

verus! {

#[derive(Debug, Clone, Copy, PartialEq, Eq, Structural)]
pub enum DatabaseType {
    Postgres,
    Sqlite,
}

impl DatabaseType {
    /// The URL scheme of the database kind.
    pub fn as_str(&self) -> (r: &'static str)
        ensures
            *self == DatabaseType::Postgres ==> r@ == "postgres"@,
            *self == DatabaseType::Sqlite ==> r@ == "sqlite"@,
    {
        match self {
            DatabaseType::Postgres => "postgres",
            DatabaseType::Sqlite => "sqlite",
        }
    }
}

/// Which servers a process runs.
#[allow(non_camel_case_types, clippy::upper_case_acronyms)]
#[derive(Debug, Clone, Copy, PartialEq, Eq, Structural)]
pub enum ServerType {
    QUERY,
    INJEST,
    ALL,
}

/// Address the producer stream endpoint listens on.
#[derive(Debug, Clone)]
pub struct Flight {
    pub address: String,
    pub port: i32,
}

/// Default segment capacity: 256 MiB.
pub const DEFAULT_SEGMENT_CAP: u64 = 268435456;

/// Default number of parser shards.
pub const DEFAULT_SHARDS: usize = 2;

/// The settings of the ingest pipeline.
#[derive(Debug, Clone, Copy, PartialEq, Eq, Structural)]
pub struct IngestSettings {
    pub segment_cap: u64,
    pub sync_policy: SyncPolicy,
    pub shards: usize,
    pub strategy: DispatchStrategy,
}

impl Default for IngestSettings {
    fn default() -> (r: Self)
        ensures
            r.segment_cap == DEFAULT_SEGMENT_CAP,
            r.sync_policy == SyncPolicy::EveryN(64),
            r.shards == DEFAULT_SHARDS,
            r.strategy == DispatchStrategy::RoundRobin,
    {
        IngestSettings {
            segment_cap: DEFAULT_SEGMENT_CAP,
            sync_policy: SyncPolicy::EveryN(64),
            shards: DEFAULT_SHARDS,
            strategy: DispatchStrategy::RoundRobin,
        }
    }
}

} // verus!
