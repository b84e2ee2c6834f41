// Integration tests for text extraction
// These tests verify that extraction degrades gracefully on bad input

use pdfscan::EngineError;
use pdfscan::extract::ExtractionResult;
use pdfscan::extract::SafeExtractor;

// the same reduction the binary's parser boundary performs: run the parser
// and reduce a failure to an absent outcome
fn outcome_of(bytes: &[u8]) -> Option<String> {
    pdf_extract::extract_text_from_mem(bytes).ok()
}

#[test]
fn test_text_extraction_api() {
    // Test that text extraction API is available
    // Verify pdf_extract is available - if this compiles, the library is linked correctly
    // We can't easily test without a real PDF, but we verify the library is available
    let _test_bytes: &[u8] = b"test";
    // If pdf_extract compiles, it's available
}

#[test]
fn test_extract_rejects_garbage_bytes() {
    // bytes that are no PDF at all must fail cleanly, never abort
    let garbage: Vec<u8> = b"this is not a pdf document at all".to_vec();
    match SafeExtractor::extract(outcome_of(&garbage)) {
        ExtractionResult::Text(_) => panic!("garbage bytes must not extract"),
        ExtractionResult::Failed(e) => assert_eq!(e, EngineError::MalformedDocument),
    }
}

#[test]
fn test_extract_rejects_empty_input() {
    match SafeExtractor::extract(outcome_of(&[])) {
        ExtractionResult::Text(_) => panic!("empty bytes must not extract"),
        ExtractionResult::Failed(e) => assert_eq!(e, EngineError::MalformedDocument),
    }
}

#[test]
fn test_extract_classifies_outcomes() {
    match SafeExtractor::extract(Some("hello".to_string())) {
        ExtractionResult::Text(t) => assert_eq!(t, "hello"),
        ExtractionResult::Failed(_) => panic!("a returned text must be classified as text"),
    }
    match SafeExtractor::extract(None) {
        ExtractionResult::Text(_) => panic!("an absent outcome must be a failure"),
        ExtractionResult::Failed(e) => assert_eq!(e, EngineError::MalformedDocument),
    }
}

#[test]
fn test_extract_or_empty_degrades_to_empty_text() {
    let garbage: Vec<u8> = vec![0xff, 0x00, 0x13, 0x37];
    let text = SafeExtractor::extract_or_empty(outcome_of(&garbage));
    assert_eq!(text, "");
    assert_eq!(
        SafeExtractor::extract_or_empty(Some("body".to_string())),
        "body"
    );
}

#[test]
fn test_error_messages() {
    assert_eq!(EngineError::IoFailure.message(), "I/O failure");
    assert_eq!(EngineError::MalformedDocument.message(), "malformed document");
    assert_eq!(
        EngineError::BackendUnavailable.message(),
        "no rendering backend available"
    );
    assert_eq!(
        EngineError::InvalidConfiguration.message(),
        "invalid configuration"
    );
}

#[test]
fn test_frame_document_text() {
    let framed = pdfscan::extract::frame_document_text("a.pdf", "hello");
    assert_eq!(
        framed,
        "[Start of document: a.pdf]\nhello\n[End of document: a.pdf]\n"
    );
}
