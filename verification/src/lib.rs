//! A backup lifecycle controller for container data volumes: it
//! schedules backup cycles from a cron expression, quiesces the
//! containers bound to each volume around its snapshot, combines the
//! per-volume archives into one timestamped artifact, keeps the remote
//! artifact set bounded in count and age through a retention policy
//! engine, and restores selected volumes from a chosen artifact.
//!
//! The controller's decisions are verified: the artifact naming
//! convention with its round trip, the retention selection with its
//! laws, the quiesce/snapshot/resume order, the scheduling tie-break,
//! and the interpretation of every remote command's outcome. The outside
//! work itself (container runtime, tar and gzip, SSH, the clock) stays
//! behind small trusted wrappers or outside the library altogether.

pub mod engine;
pub mod errors;
pub mod laws;
pub mod orchestrator;
pub mod paths;
pub mod restore;
pub mod retention;
pub mod scheduler;
pub mod server;
pub mod text;
pub mod timestamp;
