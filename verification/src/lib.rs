//! Session discovery, context extraction, and output resolution for a tool
//! that turns staged source-control changes into implementation decision
//! records.
//!
//! The library holds the logic with real invariants: locating the most
//! relevant recent activity log, extracting structured facts from it, and
//! resolving a safe output location with a symlink-confinement check.
//! Reading files, spawning processes, and the clock live with the caller,
//! which hands the library plain values.

pub mod claude;
pub mod config;
pub mod context;
pub mod git;
pub mod jsonl;
pub mod path;
pub mod prompt;
pub mod session;
pub mod text;
