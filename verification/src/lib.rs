//! A protobuf runtime: the well-known-type JSON helpers, the table-driven
//! message codec's tables, and the text handling of the packaging plugin.
pub mod encode_sink;
pub mod error;
pub mod json_helpers;
pub mod packaging;
pub mod table;
pub mod text;
pub mod unknown;
