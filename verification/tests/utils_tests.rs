// Tests for path and size helpers and session state.

use pdfscan::session::Theme;
use pdfscan::session::add_to_recent_files;
use pdfscan::session::parse_recent_files;
use pdfscan::session::serialize_recent_files;
use pdfscan::utils::file_name;
use pdfscan::utils::format_file_size;
use pdfscan::utils::get_file_extension;
use pdfscan::utils::is_pdf;
use pdfscan::utils::truncate_string;

#[test]
fn test_format_file_size_units() {
    assert_eq!(format_file_size(0), "0 bytes");
    assert_eq!(format_file_size(500), "500 bytes");
    assert_eq!(format_file_size(1023), "1023 bytes");
    assert_eq!(format_file_size(1024), "1.00 KB");
    assert_eq!(format_file_size(1536), "1.50 KB");
    assert_eq!(format_file_size(1024 * 1024), "1.00 MB");
    assert_eq!(format_file_size(5 * 1024 * 1024 + 256 * 1024), "5.25 MB");
    assert_eq!(format_file_size(1024 * 1024 * 1024), "1.00 GB");
    assert_eq!(format_file_size(3 * 1024 * 1024 * 1024 / 2), "1.50 GB");
}

#[test]
fn test_truncate_string() {
    assert_eq!(truncate_string("short", 10), "short");
    assert_eq!(truncate_string("exactly ten", 11), "exactly ten");
    assert_eq!(truncate_string("a rather long name", 10), "a rathe...");
}

#[test]
fn test_get_file_extension() {
    assert_eq!(get_file_extension("/docs/report.pdf"), "pdf");
    assert_eq!(get_file_extension("/docs/report.PDF"), "pdf");
    assert_eq!(get_file_extension("/docs/archive.tar.gz"), "gz");
    assert_eq!(get_file_extension("/docs/README"), "");
    assert_eq!(get_file_extension("/docs/.hidden"), "");
    assert_eq!(get_file_extension(""), "");
}

#[test]
fn test_is_pdf() {
    assert!(is_pdf("/docs/report.pdf"));
    assert!(is_pdf("report.PDF"));
    assert!(!is_pdf("/docs/report.txt"));
    assert!(!is_pdf("/docs/pdf"));
}

#[test]
fn test_file_name() {
    assert_eq!(file_name("/a/b/c.pdf"), "c.pdf");
    assert_eq!(file_name("plain.pdf"), "plain.pdf");
    assert_eq!(file_name(""), "");
}

#[test]
fn test_recent_files_dedup_and_limit() {
    let mut recent: Vec<String> = vec!["/b.pdf".to_string(), "/c.pdf".to_string()];
    add_to_recent_files(&mut recent, "/a.pdf".to_string());
    assert_eq!(recent, vec!["/a.pdf", "/b.pdf", "/c.pdf"]);
    // re-opening a file moves it to the front instead of duplicating it
    add_to_recent_files(&mut recent, "/c.pdf".to_string());
    assert_eq!(recent, vec!["/c.pdf", "/a.pdf", "/b.pdf"]);
    // the list keeps its ten most recent entries
    for i in 0..12 {
        add_to_recent_files(&mut recent, format!("/n{}.pdf", i));
    }
    assert_eq!(recent.len(), 10);
    assert_eq!(recent[0], "/n11.pdf");
}

#[test]
fn test_theme_values() {
    let t = Theme::Dark;
    assert_eq!(t, Theme::Dark);
    assert_ne!(t, Theme::Light);
}

#[test]
fn test_recent_files_round_trip() {
    let paths = vec!["/a.pdf".to_string(), "/b.pdf".to_string()];
    let stored = serialize_recent_files(&paths);
    assert_eq!(stored, "/a.pdf\n/b.pdf");
    assert_eq!(parse_recent_files(&stored), paths);
    // blank lines in the stored file are ignored
    assert_eq!(parse_recent_files("\n/a.pdf\n\n/b.pdf\n"), paths);
    assert_eq!(parse_recent_files(""), Vec::<String>::new());
}
