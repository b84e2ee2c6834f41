// Integration tests for search functionality
// These tests verify that the search logic handles edge cases correctly

use pdfscan::search::SearchPanel;

#[test]
fn test_search_empty_query() {
    let panel = SearchPanel::new();
    let text = "This is a test document with some content.";
    let results = panel.search_in_text(text);
    assert_eq!(results.len(), 0);
}

#[test]
fn test_search_simple_match() {
    let mut panel = SearchPanel::new();
    panel.search_query = "test".to_string();
    let text = "This is a test document with some content.";
    let results = panel.search_in_text(text);
    assert_eq!(results.len(), 1);
    assert!(results[0].text.contains("test"));
}

#[test]
fn test_search_utf8_text() {
    let mut panel = SearchPanel::new();
    panel.search_query = "世界".to_string();
    let text = "Hello 世界 🌍 test";
    let results = panel.search_in_text(text);
    assert_eq!(results.len(), 1);
    assert!(results[0].text.contains("世界"));
}

#[test]
fn test_search_multibyte_chars() {
    let mut panel = SearchPanel::new();
    panel.search_query = "café".to_string();
    let text = "Test 🚀 rocket emoji and café and naïve";
    let results = panel.search_in_text(text);
    assert_eq!(results.len(), 1);
    assert!(results[0].text.contains("café"));
}

#[test]
fn test_search_emoji() {
    let mut panel = SearchPanel::new();
    panel.search_query = "🚀".to_string();
    let text = "Test 🚀 rocket emoji";
    let results = panel.search_in_text(text);
    assert_eq!(results.len(), 1);
}

#[test]
fn test_search_case_insensitive() {
    let mut panel = SearchPanel::new();
    panel.search_query = "TEST".to_string();
    panel.case_sensitive = false;
    let text = "This is a test document";
    let results = panel.search_in_text(text);
    assert_eq!(results.len(), 1);
}

#[test]
fn test_search_case_sensitive() {
    let mut panel = SearchPanel::new();
    panel.search_query = "TEST".to_string();
    panel.case_sensitive = true;
    let text = "This is a test document";
    let results = panel.search_in_text(text);
    assert_eq!(results.len(), 0); // Should not match lowercase "test"
}

#[test]
fn test_search_multiple_matches() {
    let mut panel = SearchPanel::new();
    panel.search_query = "test".to_string();
    let text = "This is a test. Another test. And yet another test.";
    let results = panel.search_in_text(text);
    assert_eq!(results.len(), 3);
}

#[test]
fn test_search_empty_text() {
    let mut panel = SearchPanel::new();
    panel.search_query = "test".to_string();
    let text = "";
    let results = panel.search_in_text(text);
    assert_eq!(results.len(), 0);
}

#[test]
fn test_search_special_characters() {
    let mut panel = SearchPanel::new();
    panel.search_query = "naïve".to_string();
    let text = "The word naïve contains special characters";
    let results = panel.search_in_text(text);
    assert_eq!(results.len(), 1);
}

#[test]
fn test_search_very_long_text() {
    let mut panel = SearchPanel::new();
    panel.search_query = "needle".to_string();
    let text = &("haystack ".repeat(1000) + "needle" + &" haystack ".repeat(1000));
    let results = panel.search_in_text(text);
    assert_eq!(results.len(), 1);
}

#[test]
fn test_search_non_overlapping_occurrences() {
    let mut panel = SearchPanel::new();
    panel.search_query = "aa".to_string();
    let results = panel.search_in_text("aaa");
    assert_eq!(results.len(), 1);
    assert_eq!(results[0].position, 0);
}

#[test]
fn test_search_match_positions() {
    let mut panel = SearchPanel::new();
    panel.search_query = "ab".to_string();
    let results = panel.search_in_text("ab-ab");
    assert_eq!(results.len(), 2);
    assert_eq!(results[0].position, 0);
    assert_eq!(results[1].position, 3);
}

#[test]
fn test_search_context_window() {
    let mut panel = SearchPanel::new();
    panel.search_query = "x".to_string();
    let text = "a".repeat(100) + "x" + &"b".repeat(100);
    let results = panel.search_in_text(&text);
    assert_eq!(results.len(), 1);
    assert_eq!(results[0].position, 100);
    // forty characters on either side of the single-character match
    let expected = "a".repeat(40) + "x" + &"b".repeat(40);
    assert_eq!(results[0].text, expected);
}

#[test]
fn test_search_panel_corpus_flow() {
    let mut panel = SearchPanel::new();
    panel.load_directory(
        "/corpus",
        vec!["/corpus/one.pdf".to_string(), "/corpus/two.pdf".to_string()],
    );
    assert!(panel.is_loading_directory);
    assert_eq!(panel.directory_loading_progress, Some((0, 2)));
    panel.record_extracted("/corpus/one.pdf".to_string(), "alpha beta".to_string());
    panel.record_extracted("/corpus/two.pdf".to_string(), "gamma beta beta".to_string());
    assert!(!panel.is_loading_directory);
    assert_eq!(panel.directory_loading_progress, Some((2, 2)));

    panel.search_query = "beta".to_string();
    panel.perform_search();
    assert_eq!(panel.search_results.len(), 2);
    assert_eq!(panel.search_results[0].file_name, "one.pdf");
    assert_eq!(panel.search_results[0].match_count, 1);
    assert_eq!(panel.search_results[1].file_name, "two.pdf");
    assert_eq!(panel.search_results[1].match_count, 2);

    panel.search_query = "delta".to_string();
    panel.perform_search();
    assert_eq!(panel.search_results.len(), 0);
}

#[test]
fn test_search_blank_query_is_noop() {
    let mut panel = SearchPanel::new();
    panel.load_directory("/corpus", vec!["/corpus/one.pdf".to_string()]);
    panel.record_extracted("/corpus/one.pdf".to_string(), "alpha".to_string());
    panel.search_query = "alpha".to_string();
    panel.perform_search();
    assert_eq!(panel.search_results.len(), 1);
    // a whitespace-only query leaves the previous results untouched
    panel.search_query = "   ".to_string();
    panel.perform_search();
    assert_eq!(panel.search_results.len(), 1);
    // Unicode white space counts as blank too, as str::trim would strip it
    panel.search_query = "\u{a0}\u{2003}\u{3000}\t".to_string();
    panel.perform_search();
    assert_eq!(panel.search_results.len(), 1);
}

#[test]
fn test_search_phrase_in_pdf_text() {
    assert!(pdfscan::search::search_phrase_in_pdf(
        "the quick brown fox",
        "quick brown"
    ));
    assert!(!pdfscan::search::search_phrase_in_pdf(
        "the quick brown fox",
        "Quick"
    ));
    assert!(pdfscan::search::search_phrase_in_pdf("anything", ""));
    assert!(!pdfscan::search::search_phrase_in_pdf("", "x"));
}
