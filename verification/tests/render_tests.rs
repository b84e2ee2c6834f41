// Tests for render deduplication, the page cache, and the placeholder.

use pdfscan::render::PageRenderer;
use pdfscan::render::PageRequest;
use pdfscan::render::assemble_page;
use pdfscan::render::estimate_page_for_offset;
use pdfscan::render::first_available_backend;
use pdfscan::render::loading_complete;
use pdfscan::render::resolve_page_count;
use pdfscan::render::placeholder_page;

#[test]
fn test_placeholder_has_fixed_dimensions() {
    // when no backend is available the viewer still gets a bitmap of a
    // fixed, known size
    let page = placeholder_page();
    assert_eq!(page.width, 612);
    assert_eq!(page.height, 792);
    assert_eq!(page.points_w, 612);
    assert_eq!(page.points_h, 792);
    assert_eq!(page.pixels.len(), 612 * 792 * 4);
}

#[test]
fn test_placeholder_pixels() {
    let page = placeholder_page();
    let px = |x: usize, y: usize| {
        let base = (y * 612 + x) * 4;
        (
            page.pixels[base],
            page.pixels[base + 1],
            page.pixels[base + 2],
            page.pixels[base + 3],
        )
    };
    // border is light gray, interior white, centre square muted red
    assert_eq!(px(0, 0), (200, 200, 200, 255));
    assert_eq!(px(611, 791), (200, 200, 200, 255));
    assert_eq!(px(10, 10), (255, 255, 255, 255));
    assert_eq!(px(306, 396), (200, 100, 100, 255));
}

#[test]
fn test_at_most_one_render_in_flight() {
    // N concurrent callers: only the first may invoke a backend
    let mut renderer = PageRenderer::new();
    let req = PageRequest { doc: 7, page: 0 };
    assert!(renderer.begin_render(req));
    assert!(!renderer.begin_render(req));
    assert!(!renderer.begin_render(req));
    // a different page is unaffected
    assert!(renderer.begin_render(PageRequest { doc: 7, page: 1 }));
}

#[test]
fn test_failed_render_can_be_retried() {
    let mut renderer = PageRenderer::new();
    let req = PageRequest { doc: 1, page: 2 };
    assert!(renderer.begin_render(req));
    renderer.complete_render(req, None);
    assert!(renderer.rendered(req).is_none());
    // the in-flight entry was cleared, so the page can be retried
    assert!(renderer.begin_render(req));
}

#[test]
fn test_successful_render_is_cached_for_all_callers() {
    let mut renderer = PageRenderer::new();
    let req = PageRequest { doc: 1, page: 2 };
    assert!(renderer.begin_render(req));
    renderer.complete_render(req, Some(placeholder_page()));
    let first = renderer.rendered(req).expect("page must be cached");
    assert_eq!(first.width, 612);
    // once rendered, no new render starts; every caller reads the cache
    assert!(!renderer.begin_render(req));
    let again = renderer.rendered(req).expect("page must stay cached");
    assert_eq!(again.pixels.len(), 612 * 792 * 4);
}

#[test]
fn test_clear_pages_evicts_the_cache() {
    let mut renderer = PageRenderer::new();
    let req = PageRequest { doc: 3, page: 0 };
    assert!(renderer.begin_render(req));
    renderer.complete_render(req, Some(placeholder_page()));
    assert!(renderer.rendered(req).is_some());
    renderer.clear_pages();
    assert!(renderer.rendered(req).is_none());
}

#[test]
fn test_assemble_page_copies_backend_bytes() {
    // a 2x1 backend bitmap placed on a 3x2 white page
    let data: Vec<u8> = vec![1, 2, 3, 4, 5, 6, 7, 8];
    let page = assemble_page(3, 2, 2, 1, &data, 300, 200);
    assert_eq!(page.width, 3);
    assert_eq!(page.height, 2);
    assert_eq!(page.points_w, 300);
    assert_eq!(page.points_h, 200);
    assert_eq!(&page.pixels[0..4], &[1, 2, 3, 4]);
    assert_eq!(&page.pixels[4..8], &[5, 6, 7, 8]);
    // beyond the backend bitmap everything is opaque white
    assert_eq!(&page.pixels[8..12], &[255, 255, 255, 255]);
    assert_eq!(&page.pixels[12..16], &[255, 255, 255, 255]);
}

#[test]
fn test_backend_chain_order() {
    // backends are tried in priority order; after a failure the walk
    // resumes past the failed one, and an empty chain means placeholder
    let chain = vec![false, true, true];
    assert_eq!(first_available_backend(&chain, 0), Some(1));
    assert_eq!(first_available_backend(&chain, 2), Some(2));
    assert_eq!(first_available_backend(&chain, 3), None);
    assert_eq!(first_available_backend(&vec![false, false], 0), None);
    assert_eq!(first_available_backend(&vec![], 0), None);
}

#[test]
fn test_resolve_page_count_tiers() {
    // the native backend's count wins when it produced one
    assert_eq!(resolve_page_count(Some(12), Some(5), true), 12);
    // else the structural parser's count stands in
    assert_eq!(resolve_page_count(None, Some(5), false), 5);
    assert_eq!(resolve_page_count(Some(0), Some(5), false), 5);
    // with no count from any tier, extracted text alone shows as one page
    assert_eq!(resolve_page_count(None, None, true), 1);
    assert_eq!(resolve_page_count(None, Some(0), true), 1);
    // nothing at all: no pages yet
    assert_eq!(resolve_page_count(None, None, false), 0);
    assert!(loading_complete(3, false));
    assert!(loading_complete(0, true));
    assert!(!loading_complete(0, false));
}

#[test]
fn test_estimate_page_for_offset() {
    assert_eq!(estimate_page_for_offset(0, 1000, 10), 0);
    assert_eq!(estimate_page_for_offset(500, 1000, 10), 5);
    assert_eq!(estimate_page_for_offset(999, 1000, 10), 9);
    // the estimate never points past the last page
    assert_eq!(estimate_page_for_offset(1000, 1000, 10), 9);
    assert_eq!(estimate_page_for_offset(0, 0, 10), 0);
    assert_eq!(estimate_page_for_offset(5, 10, 0), 0);
}

#[test]
fn test_assemble_page_tolerates_short_buffers() {
    // a buffer shorter than the claimed bitmap degrades to white
    let data: Vec<u8> = vec![9, 9];
    let page = assemble_page(1, 1, 1, 1, &data, 100, 100);
    assert_eq!(&page.pixels[..], &[255, 255, 255, 255]);
}
