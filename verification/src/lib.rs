//! glances-rs — the verified core of a lightweight monitoring server with a
//! Glances-compatible REST API: metric parsers, rate steps, the alerting
//! engine, configuration validation and the security rules.
use vstd::prelude::*;

pub mod plugins;
pub mod text;
pub mod namemap;
pub mod num;
pub mod config;
pub mod alerts;
pub mod api;
pub mod server;
pub mod collector;

verus! {

} // verus!
