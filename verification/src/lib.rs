//! Media-type detection from magic bytes and file-name globs.
//!
//! The crate compiles a registry of magic-byte rules, file-name glob rules
//! and a media-type hierarchy from the Tika mime-types XML document, and
//! evaluates that registry against a byte buffer and an optional resource
//! name to produce a best-guess media type.

pub mod bytes_util;
pub mod compile;
pub mod detect;
pub mod glob;
pub mod laws;
pub mod magic;
pub mod registry_data;
pub mod rule;
pub mod text;
