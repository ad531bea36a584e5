//! File synchronisation and backup planning: configuration, destinations,
//! content hashing, sync plans, backup bookkeeping, schedules and change
//! watching.
pub mod text;
pub mod path;
pub mod pattern;
pub mod config;
pub mod hash;
pub mod storage;
pub mod sync;
pub mod backup;
pub mod scheduler;
pub mod watcher;
