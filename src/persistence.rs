//! Settings and summaries of job persistence.

use vstd::prelude::*;

verus! {

#[derive(Debug, Clone, Copy, PartialEq, Eq, Structural)]
pub enum StorageBackend {
    Json,
    Sqlite,
}

impl Default for StorageBackend {
    fn default() -> (r: StorageBackend)
        ensures
            r == StorageBackend::Json,
    {
        StorageBackend::Json
    }
}

/// The state of a conversion job.
#[derive(Debug, Clone, Copy, PartialEq, Eq, Structural)]
pub enum JobStatus {
    Queued,
    Processing,
    Completed,
    Failed,
    Cancelled,
}

#[derive(Debug, Clone)]
pub struct PersistenceConfig {
    pub enabled: bool,
    pub storage_path: String,
    pub backend: StorageBackend,
    pub auto_save_interval: u64,
    pub retention_days: u32,
}

impl Default for PersistenceConfig {
    fn default() -> (r: PersistenceConfig)
        ensures
            !r.enabled,
            r.storage_path@ == "./data"@,
            r.backend == StorageBackend::Json,
            r.auto_save_interval == 30,
            r.retention_days == 30,
    {
        PersistenceConfig {
            enabled: false,
            storage_path: String::from_str("./data"),
            backend: StorageBackend::Json,
            auto_save_interval: 30,
            retention_days: 30,
        }
    }
}

impl PersistenceConfig {
    /// The defaults, switched on.
    pub fn enabled() -> (r: PersistenceConfig)
        ensures
            r.enabled,
            r.storage_path@ == "./data"@,
            r.backend == StorageBackend::Json,
            r.auto_save_interval == 30,
            r.retention_days == 30,
    {
        let mut r = PersistenceConfig::default();
        r.enabled = true;
        r
    }

    pub fn with_path(self, path: &str) -> (r: PersistenceConfig)
        ensures
            r.storage_path@ == path@,
            r.enabled == self.enabled,
            r.backend == self.backend,
            r.auto_save_interval == self.auto_save_interval,
            r.retention_days == self.retention_days,
    {
        let mut s = self;
        s.storage_path = path.to_owned();
        s
    }

    pub fn with_backend(self, backend: StorageBackend) -> (r: PersistenceConfig)
        ensures
            r.backend == backend,
            r.enabled == self.enabled,
            r.storage_path == self.storage_path,
            r.auto_save_interval == self.auto_save_interval,
            r.retention_days == self.retention_days,
    {
        let mut s = self;
        s.backend = backend;
        s
    }
}

/// What startup recovery did with the stored jobs.
#[derive(Debug, Clone, Copy, PartialEq, Eq)]
pub struct RecoveryResult {
    pub recovered: usize,
    pub requeued: usize,
    pub failed: usize,
}

impl Default for RecoveryResult {
    fn default() -> (r: RecoveryResult)
        ensures
            r == (RecoveryResult { recovered: 0, requeued: 0, failed: 0 }),
    {
        RecoveryResult { recovered: 0, requeued: 0, failed: 0 }
    }
}

/// A page of the job history, optionally of one status only.
#[derive(Debug, Clone, Copy, PartialEq, Eq)]
pub struct HistoryQuery {
    pub limit: usize,
    pub offset: usize,
    pub status: Option<JobStatus>,
}

impl Default for HistoryQuery {
    fn default() -> (r: HistoryQuery)
        ensures
            r == (HistoryQuery { limit: 50, offset: 0, status: None }),
    {
        HistoryQuery { limit: 50, offset: 0, status: None }
    }
}

} // verus!
