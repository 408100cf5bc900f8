//! The record-type decoders: one implementer of [`crate::wire::Wire`] per
//! supported resource-record type.

pub mod txt;
