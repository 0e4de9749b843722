//! The wire layer: framing, the envelope, commands and the engine that
//! runs one request/reply cycle.

pub mod commands;
pub mod connection;
pub mod xml_serde;
