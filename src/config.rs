use vstd::prelude::*;

verus! {

/// Connection parameters of one database endpoint.
#[derive(Debug, Clone)]
pub struct DatabaseConfig {
    pub driver: String,
    pub server: String,
    pub database: String,
    pub schema: String,
    pub username: String,
    pub password: String,
}

/// Bounds and acquisition timeout of a connection pool.
#[derive(Debug, Clone, Copy, PartialEq, Eq, Structural)]
pub struct ConnectionPoolConfig {
    pub min_size: u32,
    pub max_size: u32,
    pub timeout_seconds: u32,
}

/// Rows per InsertBatch operation, and batches per transaction.
#[derive(Debug, Clone, Copy, PartialEq, Eq, Structural)]
pub struct BatchConfig {
    pub batch_size: usize,
    pub commit_frequency: usize,
}

/// Whether operations may run on several workers, and how many.
#[derive(Debug, Clone, Copy, PartialEq, Eq, Structural)]
pub struct ParallelConfig {
    pub enabled: bool,
    pub thread_count: usize,
}

/// The endpoints of a migration.
#[derive(Debug, Clone)]
pub struct DsnConfig {
    pub origin: DatabaseConfig,
    pub reference: DatabaseConfig,
    pub target: DatabaseConfig,
}

/// All settings of a migration run.
#[derive(Debug, Clone)]
pub struct Config {
    pub dsn: DsnConfig,
    pub connection_pool: ConnectionPoolConfig,
    pub batch: BatchConfig,
    pub parallel: ParallelConfig,
    pub log_level: String,
}

/// The first rule that a configuration breaks.
#[derive(Debug, Clone, Copy, PartialEq, Eq, Structural)]
pub enum ConfigError {
    /// The pool may hold no connection at all.
    EmptyPool,
    /// The pool's minimum size exceeds its maximum.
    PoolBoundsInverted,
    /// Batches would hold no rows.
    ZeroBatchSize,
    /// Transactions would span no batch.
    ZeroCommitFrequency,
    /// Parallel execution is enabled with no worker.
    ZeroThreads,
}

/// What `Config::validate` decides, rule by rule in this order.
pub open spec fn config_check(pool: ConnectionPoolConfig, batch: BatchConfig, parallel: ParallelConfig) -> Result<(), ConfigError> {
    if pool.max_size == 0 {
        Err(ConfigError::EmptyPool)
    } else if pool.min_size > pool.max_size {
        Err(ConfigError::PoolBoundsInverted)
    } else if batch.batch_size == 0 {
        Err(ConfigError::ZeroBatchSize)
    } else if batch.commit_frequency == 0 {
        Err(ConfigError::ZeroCommitFrequency)
    } else if parallel.enabled && parallel.thread_count == 0 {
        Err(ConfigError::ZeroThreads)
    } else {
        Ok(())
    }
}

impl Config {
    /// Whether the numeric settings are usable by the engine.
    pub open spec fn valid(&self) -> bool {
        config_check(self.connection_pool, self.batch, self.parallel) is Ok
    }

    /// Checks the pool bounds, batch sizing and worker count.
    pub fn validate(&self) -> (r: Result<(), ConfigError>)
        ensures
            r == config_check(self.connection_pool, self.batch, self.parallel),
    {
        let pool = self.connection_pool;
        if pool.max_size == 0 {
            Err(ConfigError::EmptyPool)
        } else if pool.min_size > pool.max_size {
            Err(ConfigError::PoolBoundsInverted)
        } else if self.batch.batch_size == 0 {
            Err(ConfigError::ZeroBatchSize)
        } else if self.batch.commit_frequency == 0 {
            Err(ConfigError::ZeroCommitFrequency)
        } else if self.parallel.enabled && self.parallel.thread_count == 0 {
            Err(ConfigError::ZeroThreads)
        } else {
            Ok(())
        }
    }
}

} // verus!
