//! Verified core of a proxy health monitor.
//!
//! The library models a proxy/group topology fetched from a remote
//! proxy-management API, reshapes it into flat per-(group, proxy) delay
//! samples, holds those samples in a registry with last-write-wins
//! semantics, renders them in the Prometheus text exposition format, and
//! decides the steps of the periodic health-check cycle. All I/O (HTTP
//! client, scrape server, config file) lives outside the library.

pub mod model;
pub mod registry;
pub mod reshape;
pub mod laws;
pub mod config;
pub mod errors;
pub mod schedule;
pub mod numfmt;
pub mod api;
pub mod textfmt;
