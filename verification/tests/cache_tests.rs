// Tests for the tiered text cache: idempotent serving, fingerprint
// invalidation, and the sidecar naming scheme.

use pdfscan::cache::Fingerprint;
use pdfscan::cache::TieredTextCache;
use pdfscan::cache::document_id;
use pdfscan::cache::get_cache_directory;
use pdfscan::cache::get_cache_path;

#[test]
fn test_get_or_extract_is_idempotent() {
    // the first call consumes the extraction outcome; a second call for the
    // unchanged file is a hit that never consults its outcome
    let mut cache = TieredTextCache::new();
    let id = document_id("/corpus/a.pdf");
    let fp = Fingerprint { size: 10, mtime: 100 };
    let (text1, consumed1) = cache.get_or_extract(id, fp, Some("the text".to_string()));
    assert!(consumed1);
    assert_eq!(text1, "the text");
    let (text2, consumed2) = cache.get_or_extract(id, fp, Some("a different text".to_string()));
    assert!(!consumed2);
    assert_eq!(text2, "the text");
}

#[test]
fn test_get_or_extract_caches_a_failure_as_empty_text() {
    // a parser failure degrades to the empty text, which is still cached
    let mut cache = TieredTextCache::new();
    let id = document_id("/corpus/bad.pdf");
    let fp = Fingerprint { size: 3, mtime: 30 };
    let (text1, consumed1) = cache.get_or_extract(id, fp, None);
    assert!(consumed1);
    assert_eq!(text1, "");
    let (text2, consumed2) = cache.get_or_extract(id, fp, None);
    assert!(!consumed2);
    assert_eq!(text2, "");
}

#[test]
fn test_changed_file_is_not_served_stale_text() {
    let mut cache = TieredTextCache::new();
    let id = document_id("/corpus/a.pdf");
    let old_fp = Fingerprint { size: 10, mtime: 100 };
    cache.store(id, old_fp, "old text".to_string());
    assert_eq!(cache.probe(id, old_fp), Some("old text".to_string()));
    // the file changed: same id, new fingerprint
    let new_fp = Fingerprint { size: 11, mtime: 200 };
    assert_eq!(cache.probe(id, new_fp), None);
}

#[test]
fn test_invalidate_drops_one_document() {
    let mut cache = TieredTextCache::new();
    let fp = Fingerprint { size: 1, mtime: 1 };
    let a = document_id("/a.pdf");
    let b = document_id("/b.pdf");
    cache.store(a, fp, "text a".to_string());
    cache.store(b, fp, "text b".to_string());
    cache.invalidate(a);
    assert_eq!(cache.probe(a, fp), None);
    assert_eq!(cache.probe(b, fp), Some("text b".to_string()));
}

#[test]
fn test_store_replaces_entry() {
    let mut cache = TieredTextCache::new();
    let id = document_id("/a.pdf");
    let fp1 = Fingerprint { size: 1, mtime: 1 };
    let fp2 = Fingerprint { size: 2, mtime: 2 };
    cache.store(id, fp1, "one".to_string());
    cache.store(id, fp2, "two".to_string());
    assert_eq!(cache.probe(id, fp1), None);
    assert_eq!(cache.probe(id, fp2), Some("two".to_string()));
}

#[test]
fn test_admit_disk_entry_checks_fingerprint() {
    let mut cache = TieredTextCache::new();
    let id = document_id("/a.pdf");
    let current = Fingerprint { size: 5, mtime: 50 };
    let stale = Fingerprint { size: 5, mtime: 49 };
    // a sidecar written for an older version of the file is a miss
    assert!(!cache.admit_disk_entry(id, current, stale, "old".to_string()));
    assert_eq!(cache.probe(id, current), None);
    // one written for the current version is taken into the memory tier
    assert!(cache.admit_disk_entry(id, current, current, "new".to_string()));
    assert_eq!(cache.probe(id, current), Some("new".to_string()));
}

#[test]
fn test_document_id_is_stable() {
    let a1 = document_id("/corpus/report.pdf");
    let a2 = document_id("/corpus/report.pdf");
    let b = document_id("/corpus/other.pdf");
    assert_eq!(a1, a2);
    assert_ne!(a1, b);
}

#[test]
fn test_cache_path_layout() {
    let dir = get_cache_directory("/corpus");
    assert_eq!(dir, "/corpus/.pdfscan");
    let path = get_cache_path("/corpus/report.pdf", &dir);
    assert_eq!(path, "/corpus/.pdfscan/report.txt");
    // a stem keeps everything before the last dot
    let path = get_cache_path("/corpus/report.v2.pdf", &dir);
    assert_eq!(path, "/corpus/.pdfscan/report.v2.txt");
    // a leading dot is no extension separator
    let path = get_cache_path("/corpus/.hidden", &dir);
    assert_eq!(path, "/corpus/.pdfscan/.hidden.txt");
}
