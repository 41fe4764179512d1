//! Helpers for the proto3 JSON mapping.
pub mod decimal;
pub mod wkt;
