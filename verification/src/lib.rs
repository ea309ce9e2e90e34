//! A supervisor core for named local services: the configuration model, the
//! table of live processes, the dependency-aware orchestration of starts and
//! stops, and the scheduling of health probes.
//!
//! The library decides; it performs no I/O. Spawning, killing, sleeping and
//! probing are done by the caller, who reports each outcome back.

pub mod config;
pub mod registry;
pub mod process;
pub mod web;
pub mod catalog;
pub mod orchestrator;
pub mod machine;
pub mod run;
pub mod waves;
pub mod cycles;
pub mod plan;
pub mod healthcheck;
pub mod database;
pub mod netstat;
