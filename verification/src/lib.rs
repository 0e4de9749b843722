//! Client-side codec and command engine for the BOINC GUI-RPC control
//! protocol: a sentinel-framed, envelope-wrapped XML dialect with
//! non-standard conventions (custom boolean encoding, mandatory
//! self-closing empty tags, forgiving field decoding).

pub mod defs;
pub mod error;
pub mod parse;
pub mod rpc;
pub mod ser;
pub mod text;
pub mod types;
pub mod xml;
