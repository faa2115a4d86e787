//! Verified core of a container statistics exporter.
//!
//! The crate turns the human-readable fields that a container runtime
//! reports for each container (`"12.3%"`, `"1.2MB"`, `"650B / 1.5kB"`) into
//! exact decimal metric values and renders them as a metrics exposition
//! document whose metric names are unique.

pub mod convert_to_bytes;
pub mod decimal;
pub mod docker;
pub mod error;
pub mod exposition;
pub mod gauge;
pub mod parse;
pub mod registry;
pub mod round_trip;
pub mod text;
