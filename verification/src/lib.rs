//! Verified core of a host-discovery and TCP port scanning service.

pub mod text;
pub mod ports;
pub mod report;
pub mod json;
pub mod progress;
pub mod registry;
pub mod plan;
pub mod task;
pub mod driver;
pub mod assets;
pub mod audit;
pub mod netinfo;
pub mod probe;
pub mod http;
