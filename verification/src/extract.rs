//! Fault-isolated handling of text extraction outcomes.
//!
//! Parsing a PDF can fault: the parser may reject the bytes with an error,
//! or unwind outright on malformed font tables and page trees.  Verified
//! code must never abort, and the unwinding guard (`catch_unwind`) cannot
//! be written inside the library, so the parser runs behind the caller's
//! guard and the library receives the outcome as a plain value: the text
//! when the parser returned one, nothing when it failed or faulted.  From
//! that boundary on, everything is verified and total: a missing outcome
//! degrades to `Failed(MalformedDocument)` or to the empty text, never to
//! an abort of the enclosing batch operation.

use vstd::prelude::*;

use crate::EngineError;
use crate::strutil::push_str_chars;
use crate::strutil::string_from_chars;

verus! {

/// The text an extraction outcome carries: the parser's text, or the empty
/// text when the parser failed or faulted.
pub open spec fn outcome_text(outcome: Option<String>) -> Seq<char> {
    match outcome {
        Some(t) => t@,
        None => Seq::empty(),
    }
}

/// The outcome of extracting text from one document: the text, or the
/// error class of the failure.
pub enum ExtractionResult {
    Text(String),
    Failed(EngineError),
}

/// Turns raw extraction outcomes into results that cannot abort a batch:
/// every parser fault has already been reduced to an absent outcome at the
/// boundary, and everything from here on is verified total code.
pub struct SafeExtractor;

impl SafeExtractor {
    /// Classifies one guarded extraction outcome.  A buffer the parser
    /// rejected or faulted on yields `Failed(MalformedDocument)`, never an
    /// abort.
    pub fn extract(outcome: Option<String>) -> (r: ExtractionResult)
        ensures
            match r {
                ExtractionResult::Text(t) => outcome == Some(t),
                ExtractionResult::Failed(e) => outcome is None && e
                    == EngineError::MalformedDocument,
            },
    {
        match outcome {
            Some(t) => ExtractionResult::Text(t),
            None => ExtractionResult::Failed(EngineError::MalformedDocument),
        }
    }

    /// Classifies one guarded extraction outcome, degrading a failure to
    /// the empty text, so that one malformed file cannot stop a
    /// corpus-wide run.
    pub fn extract_or_empty(outcome: Option<String>) -> (r: String)
        ensures
            r@ == outcome_text(outcome),
    {
        match outcome {
            Some(t) => t,
            None => String::new(),
        }
    }
}

/// One document's contribution to a batch extraction output: its text
/// framed by start and end markers that carry the file name.
pub open spec fn framed_text(filename: Seq<char>, text: Seq<char>) -> Seq<char> {
    "[Start of document: "@ + filename + "]\n"@ + text + "\n[End of document: "@ + filename
        + "]\n"@
}

/// Frames one document's text for the batch extraction output.
pub fn frame_document_text(filename: &str, text: &str) -> (r: String)
    ensures
        r@ == framed_text(filename@, text@),
{
    let mut out: Vec<char> = Vec::new();
    push_str_chars(&mut out, "[Start of document: ");
    push_str_chars(&mut out, filename);
    push_str_chars(&mut out, "]\n");
    push_str_chars(&mut out, text);
    push_str_chars(&mut out, "\n[End of document: ");
    push_str_chars(&mut out, filename);
    push_str_chars(&mut out, "]\n");
    proof {
        assert(out@ =~= framed_text(filename@, text@));
    }
    string_from_chars(&out)
}

} // verus!
