//! Core library of a self-hosted media server.
//!
//! The server ingests torrents, turns their contents into a normalized
//! on-disk media library, and serves the catalog to client applications.
//! This crate holds the orchestration logic: filename parsing, path
//! sanitization, the per-torrent metadata codec, crawler classification,
//! preparation planning, and the processor's bookkeeping. All I/O lives
//! outside, in thin runners that feed these functions plain values.

pub mod codec;
pub mod crawl;
pub mod format;
pub mod json;
pub mod language;
pub mod media;
pub mod parse;
pub mod prepare;
pub mod process;
pub mod sanitize;
pub mod series;
pub mod subtitle;
pub mod text;
pub mod torrent;

use vstd::prelude::*;

verus! {

} // verus!
