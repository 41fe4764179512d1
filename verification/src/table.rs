//! Table-driven message codec: the tables that describe a message to the
//! interpreters, and the checks that make them consistent.
pub mod decode;
pub mod entry;
pub mod gather;
pub mod kind;
pub mod kinds;
pub mod leaders;
pub mod map;
pub mod map_entry;
pub mod read;
pub mod message;
pub mod oneof;
pub mod shape;
pub mod write;
pub mod wire;
