//! Verified core of a unified package-manager front end: a multi-backend
//! search aggregator with deterministic scoring and ranking, a shim registry
//! (the durable record of installed command shims), and the transactional
//! installation pipeline that drives backend installs, optional integrity
//! verification and shim creation, rolling back on failure.

pub mod backends;
pub mod cli;
pub mod config;
pub mod context;
pub mod integrity;
pub mod pipeline;
pub mod search;
pub mod shims;
pub mod strutil;
