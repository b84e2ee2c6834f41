//! Engine of a PDF viewing, search and analysis tool.
//!
//! The crate covers the work that is shared by all of the tool's surfaces:
//! classifying the outcomes of guarded text extraction so one malformed
//! document can never abort a batch, caching extracted text in memory and
//! deciding when an on-disk copy may be reused, deduplicating page-render
//! requests and producing the placeholder bitmap, planning the work of a
//! directory indexing run, and computing keyword co-occurrence statistics
//! over a corpus.  File and process handling, and the parser with its
//! unwinding guard, live in the accompanying binary; everything here is
//! pure logic over plain values and cannot abort.

use vstd::prelude::*;

pub mod cache;
pub mod extract;
pub mod indexer;
pub mod render;
pub mod search;
pub mod session;
pub mod stats;
pub mod strutil;
pub mod utils;

verus! {

/// The failure classes of the engine.
///
/// `MalformedDocument` and `BackendUnavailable` are always recovered locally
/// (empty text, placeholder image); `IoFailure` on a cache write is ignored;
/// `InvalidConfiguration` is surfaced before any work begins.
#[derive(Clone, Copy, Debug, PartialEq, Eq, Structural)]
pub enum EngineError {
    IoFailure,
    MalformedDocument,
    BackendUnavailable,
    InvalidConfiguration,
}

impl EngineError {
    /// A short human-readable description of the error.
    pub fn message(&self) -> (r: &'static str)
        ensures
            r@ == match *self {
                EngineError::IoFailure => "I/O failure"@,
                EngineError::MalformedDocument => "malformed document"@,
                EngineError::BackendUnavailable => "no rendering backend available"@,
                EngineError::InvalidConfiguration => "invalid configuration"@,
            },
    {
        match *self {
            EngineError::IoFailure => "I/O failure",
            EngineError::MalformedDocument => "malformed document",
            EngineError::BackendUnavailable => "no rendering backend available",
            EngineError::InvalidConfiguration => "invalid configuration",
        }
    }
}

} // verus!
