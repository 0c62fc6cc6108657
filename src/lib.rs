//! Orchestration of an external coding agent for many isolated tenants: per-tenant locks
//! and rate limits, the agent's line protocol, one-shot runs, and the stores that bind each
//! tenant to a session file and a workspace.

pub mod calendar;
pub mod config;
pub mod error;
pub mod file_detector;
pub mod home;
pub mod locks;
pub mod markdown;
pub mod patterns;
pub mod protocol;
pub mod rate_limiter;
pub mod runner;
pub mod session_log;
pub mod sessions;
pub mod tenant_map;
pub mod text;
pub mod titles;
pub mod util;
pub mod workspace;
