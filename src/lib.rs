pub mod utils;
pub mod batch;
pub mod config;
pub mod metadata;
pub mod diff;
pub mod decision;
pub mod plan;
pub mod execution;
pub mod report;
pub mod sql;
pub mod pool;
