use vstd::prelude::*;

verus! {

/// Where the service keeps its write-ahead log.
pub struct StorageConfig {
    pub wal: String,
}

/// Network endpoint of the service.
pub struct ServiceConfig {
    pub host: String,
    pub port: usize,
}

/// Top-level service settings.
pub struct Settings {
    pub debug: bool,
    pub log_level: String,
    pub storage: StorageConfig,
    pub service: ServiceConfig,
}

} // verus!
