//! Decoding of DNS resource-record payloads from their on-wire byte form.
//!
//! The crate provides a bounds-checked byte reader ([`wire::Cursor`]), the
//! error taxonomy a decode can produce ([`wire::WireError`]), the decode
//! contract every record type implements ([`wire::Wire`]), and the decoder
//! for text records ([`record::txt::TXT`]).

pub mod record;
pub mod wire;
