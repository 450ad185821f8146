//! Static auditor for MCP tool catalogs.
pub mod text;
pub mod json;
pub mod types;
pub mod normalize;
pub mod hash;
pub mod pattern;
pub mod detectors;
pub mod pin;
pub mod report;
pub mod client;
pub mod scan;
pub mod cli;
