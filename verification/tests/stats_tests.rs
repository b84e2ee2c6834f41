// Tests for the correlation engine: the co-occurrence metric, ranking,
// and the textual report.

use pdfscan::stats::DocumentCounts;
use pdfscan::stats::KeywordAnalysis;
use pdfscan::stats::analyze;
use pdfscan::stats::build_report;
use pdfscan::stats::extract_keyword_counts;

fn doc(name: &str, counts: Vec<u32>) -> DocumentCounts {
    DocumentCounts { filename: name.to_string(), counts }
}

#[test]
fn test_two_document_scenario() {
    // D1 = {apple: 3, banana: 0}, D2 = {apple: 2, banana: 4}, threshold 0.1:
    // correlation(apple, banana) = avg(min(3,0), min(2,4)) = (0 + 2) / 2 = 1.0;
    // score(D1) = 0 (excluded from the report), score(D2) = 1.0 * 2 = 2.0
    let keywords = vec!["apple".to_string(), "banana".to_string()];
    let documents = vec![doc("D1", vec![3, 0]), doc("D2", vec![2, 4])];
    let (analysis, ranked) = analyze(keywords, documents, 1, 10).expect("valid configuration");

    // the stored sum is 2 over 2 documents: strength 1.00
    assert_eq!(analysis.correlations[0][1], 2);
    assert_eq!(analysis.total_documents, 2);

    // D2 leads with score 4/2 = 2.0; D1 scores 0
    assert_eq!(ranked.len(), 2);
    assert_eq!(ranked[0].filename, "D2");
    assert_eq!(ranked[0].score_num, 4); // 4 / 2 documents = 2.0
    assert_eq!(ranked[1].filename, "D1");
    assert_eq!(ranked[1].score_num, 0);

    let report = build_report(&analysis, &ranked, 1, 10);
    assert!(report.contains("Keywords: apple, banana"));
    assert!(report.contains("Total documents analyzed: 2"));
    assert!(report.contains("Correlation threshold: 0.10"));
    assert!(report.contains("1.00"));
    // zero-scored documents are excluded from the ranked report
    assert!(report.contains("1. D2 (score: 2.00)"));
    assert!(!report.contains("D1 (score:"));
}

#[test]
fn test_empty_keyword_list_is_rejected() {
    let documents = vec![doc("D1", vec![])];
    assert!(analyze(vec![], documents, 1, 10).is_err());
}

#[test]
fn test_threshold_excludes_weak_pairs() {
    // strength(apple, banana) = 1/2 = 0.5 < 0.6: nothing scores
    let keywords = vec!["apple".to_string(), "banana".to_string()];
    let documents = vec![doc("D1", vec![1, 1]), doc("D2", vec![1, 0])];
    let (_, ranked) = analyze(keywords, documents, 6, 10).expect("valid configuration");
    assert_eq!(ranked[0].score_num, 0);
    assert_eq!(ranked[1].score_num, 0);
}

#[test]
fn test_ranking_is_stable_for_ties() {
    let keywords = vec!["a".to_string(), "b".to_string()];
    let documents = vec![
        doc("first", vec![1, 1]),
        doc("second", vec![1, 1]),
        doc("third", vec![2, 2]),
    ];
    let (_, ranked) = analyze(keywords, documents, 0, 1).expect("valid configuration");
    // third scores highest; first and second tie and keep corpus order
    assert_eq!(ranked[0].filename, "third");
    assert_eq!(ranked[1].filename, "first");
    assert_eq!(ranked[2].filename, "second");
}

#[test]
fn test_correlation_matrix_text() {
    let keywords = vec!["apple".to_string(), "banana".to_string()];
    let documents = vec![doc("D1", vec![3, 0]), doc("D2", vec![2, 4])];
    let (analysis, _) = analyze(keywords, documents, 1, 10).expect("valid configuration");
    let text = analysis.generate_correlation_matrix();
    assert!(text.starts_with("Keyword Correlation Matrix:\n\n"));
    assert!(text.contains("    0   1   \n"));
    assert!(text.contains("0   ---- 1.00 \n"));
    assert!(text.contains("1   1.00 ---- \n"));
    assert!(text.contains("Keyword Index Mapping:\n0: apple\n1: banana\n"));
}

#[test]
fn test_extract_keyword_counts() {
    let keywords = vec!["apple".to_string(), "pie".to_string(), "kiwi".to_string()];
    let counts = extract_keyword_counts("apple pie, apple cake, apple pie", &keywords);
    assert_eq!(counts, vec![3, 2, 0]);
}

#[test]
fn test_counts_are_case_sensitive() {
    let keywords = vec!["Apple".to_string()];
    let counts = extract_keyword_counts("apple Apple APPLE", &keywords);
    assert_eq!(counts, vec![1]);
}

#[test]
fn test_empty_corpus_analysis() {
    let keywords = vec!["a".to_string(), "b".to_string()];
    let (analysis, ranked) = analyze(keywords, vec![], 1, 10).expect("valid configuration");
    assert_eq!(analysis.correlations[0][1], 0);
    assert_eq!(ranked.len(), 0);
    let report = build_report(&analysis, &ranked, 1, 10);
    assert!(report.contains("Total documents analyzed: 0"));
    assert!(report.contains("0.00"));
}

#[test]
fn test_single_keyword_has_no_pairs() {
    // fewer than two keywords: no correlation terms, all scores zero
    let keywords = vec!["only".to_string()];
    let documents = vec![doc("D1", vec![5])];
    let (analysis, ranked) = analyze(keywords, documents, 0, 1).expect("valid configuration");
    assert_eq!(analysis.correlations.len(), 1);
    assert_eq!(analysis.correlations[0][0], 0);
    assert_eq!(ranked[0].score_num, 0);
}

#[test]
fn test_new_analysis_is_zeroed() {
    let a = KeywordAnalysis::new(vec!["x".to_string(), "y".to_string()]);
    assert_eq!(a.total_documents, 0);
    assert_eq!(a.correlations, vec![vec![0, 0], vec![0, 0]]);
}
