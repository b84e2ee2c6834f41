//! Page rendering orchestration.
//!
//! Rendering a page is slow and may fail, so the engine keeps a per-session
//! page cache and an in-flight set: a render for a page starts only when no
//! render of the same page is already running and no bitmap is cached, which
//! enforces at most one concurrent backend invocation per page.  The module
//! also normalises raw backend output into an owned bitmap and produces the
//! deterministic placeholder bitmap that stands in when every backend fails,
//! so a viewer always has something to display.  The backends themselves
//! (native library, external rasterizer processes) live with the caller;
//! this module decides when they run and what their output becomes.

use vstd::prelude::*;

verus! {

/// A render request: one page of one document.
#[derive(Clone, Copy, Debug, PartialEq, Eq, Hash, Structural)]
pub struct PageRequest {
    pub doc: u64,
    pub page: usize,
}

/// A rendered page: an RGBA bitmap row by row, top to bottom, together with
/// the page's natural size in points.  Never mutated after creation.
pub struct RenderedPage {
    pub width: usize,
    pub height: usize,
    pub pixels: Vec<u8>,
    pub points_w: usize,
    pub points_h: usize,
}

impl RenderedPage {
    /// The buffer holds exactly four channels per pixel.
    pub open spec fn wf(&self) -> bool {
        self.pixels@.len() == self.width * self.height * 4
    }
}

pub const PLACEHOLDER_W: usize = 612;

pub const PLACEHOLDER_H: usize = 792;

/// One channel of the placeholder bitmap: white fill, a light gray
/// one-pixel border, and a muted red square in the middle; alpha is opaque
/// everywhere.  The square is a tenth of the short side, centred.
pub open spec fn placeholder_channel(x: int, y: int, ch: int) -> u8 {
    if ch == 3 {
        255
    } else if 276 <= x < 337 && 366 <= y < 427 {
        if ch == 0 {
            200
        } else {
            100
        }
    } else if x == 0 || x == 611 || y == 0 || y == 791 {
        200
    } else {
        255
    }
}

/// The deterministic placeholder page: US-letter sized at 72 DPI, so the
/// viewer always has a bitmap of a fixed, known size.
pub fn placeholder_page() -> (r: RenderedPage)
    ensures
        r.width == PLACEHOLDER_W,
        r.height == PLACEHOLDER_H,
        r.points_w == PLACEHOLDER_W,
        r.points_h == PLACEHOLDER_H,
        r.wf(),
        forall|x: int, y: int, ch: int|
            0 <= x < 612 && 0 <= y < 792 && 0 <= ch < 4 ==> r.pixels@[(y * 612 + x) * 4 + ch]
                == placeholder_channel(x, y, ch),
{
    let mut pixels: Vec<u8> = Vec::new();
    let mut y: usize = 0;
    while y < 792
        invariant
            y <= 792,
            pixels@.len() == y * 612 * 4,
            forall|yy: int, xx: int, ch: int|
                0 <= yy < y && 0 <= xx < 612 && 0 <= ch < 4 ==> pixels@[(yy * 612 + xx) * 4 + ch]
                    == placeholder_channel(xx, yy, ch),
        decreases 792 - y,
    {
        let mut x: usize = 0;
        while x < 612
            invariant
                y < 792,
                x <= 612,
                pixels@.len() == y * 612 * 4 + x * 4,
                forall|yy: int, xx: int, ch: int|
                    0 <= yy < y && 0 <= xx < 612 && 0 <= ch < 4 ==> pixels@[(yy * 612 + xx) * 4
                        + ch] == placeholder_channel(xx, yy, ch),
                forall|xx: int, ch: int|
                    0 <= xx < x && 0 <= ch < 4 ==> pixels@[(y * 612 + xx) * 4 + ch]
                        == placeholder_channel(xx, y as int, ch),
            decreases 612 - x,
        {
            let in_square = 276 <= x && x < 337 && 366 <= y && y < 427;
            let on_border = x == 0 || x == 611 || y == 0 || y == 791;
            if in_square {
                pixels.push(200);
                pixels.push(100);
                pixels.push(100);
            } else if on_border {
                pixels.push(200);
                pixels.push(200);
                pixels.push(200);
            } else {
                pixels.push(255);
                pixels.push(255);
                pixels.push(255);
            }
            pixels.push(255);
            x = x + 1;
        }
        y = y + 1;
    }
    RenderedPage {
        width: PLACEHOLDER_W,
        height: PLACEHOLDER_H,
        pixels,
        points_w: PLACEHOLDER_W,
        points_h: PLACEHOLDER_H,
    }
}

/// One channel of a page assembled from raw backend output: where the
/// backend bitmap covers the target and the buffer is long enough, its own
/// bytes; everywhere else opaque white.
pub open spec fn assembled_channel(bw: int, bh: int, data: Seq<u8>, x: int, y: int, ch: int) -> u8 {
    if x < bw && y < bh && (y * bw + x) * 4 + 3 < data.len() {
        data[(y * bw + x) * 4 + ch]
    } else {
        255
    }
}

proof fn lemma_row_major_bound(yy: int, xx: int, y: int, w: int)
    requires
        0 <= yy < y,
        0 <= xx < w,
    ensures
        0 <= yy * w + xx < y * w,
    decreases y,
{
    assert(yy * w + xx < y * w) by (nonlinear_arith)
        requires
            0 <= yy < y,
            0 <= xx < w,
    ;
    assert(yy * w >= 0) by (nonlinear_arith)
        requires
            yy >= 0,
            w > 0,
    ;
}

/// Normalises a backend's raw RGBA bytes (a bitmap of `bw` by `bh` pixels)
/// into an owned page of `width` by `height` pixels on a white background.
/// Out-of-range rows, columns, and short buffers degrade to white rather
/// than failing.
pub fn assemble_page(
    width: usize,
    height: usize,
    bw: usize,
    bh: usize,
    data: &Vec<u8>,
    points_w: usize,
    points_h: usize,
) -> (r: RenderedPage)
    requires
        width <= 16383,
        height <= 16383,
        bw <= 16383,
        bh <= 16383,
    ensures
        r.width == width,
        r.height == height,
        r.points_w == points_w,
        r.points_h == points_h,
        r.wf(),
        forall|x: int, y: int, ch: int|
            0 <= x < width && 0 <= y < height && 0 <= ch < 4 ==> r.pixels@[(y * width + x) * 4 + ch]
                == assembled_channel(bw as int, bh as int, data@, x, y, ch),
{
    let mut pixels: Vec<u8> = Vec::new();
    let mut y: usize = 0;
    while y < height
        invariant
            width <= 16383,
            height <= 16383,
            bw <= 16383,
            bh <= 16383,
            y <= height,
            pixels@.len() == y * width * 4,
            forall|yy: int, xx: int, ch: int|
                0 <= yy < y && 0 <= xx < width && 0 <= ch < 4 ==> pixels@[(yy * width + xx) * 4
                    + ch] == assembled_channel(bw as int, bh as int, data@, xx, yy, ch),
        decreases height - y,
    {
        let mut x: usize = 0;
        while x < width
            invariant
                width <= 16383,
                height <= 16383,
                bw <= 16383,
                bh <= 16383,
                y < height,
                x <= width,
                pixels@.len() == y * width * 4 + x * 4,
                forall|yy: int, xx: int, ch: int|
                    0 <= yy < y && 0 <= xx < width && 0 <= ch < 4 ==> pixels@[(yy * width + xx) * 4
                        + ch] == assembled_channel(bw as int, bh as int, data@, xx, yy, ch),
                forall|xx: int, ch: int|
                    0 <= xx < x && 0 <= ch < 4 ==> pixels@[(y * width + xx) * 4 + ch]
                        == assembled_channel(bw as int, bh as int, data@, xx, y as int, ch),
            decreases width - x,
        {
            if x < bw && y < bh {
                proof {
                    assert(y * bw + x <= 16382 * 16383 + 16383) by (nonlinear_arith)
                        requires
                            0 <= y <= 16382,
                            0 <= bw <= 16383,
                            0 <= x <= 16383,
                    ;
                }
                let idx = (y * bw + x) * 4;
                if idx + 3 < data.len() {
                    pixels.push(data[idx]);
                    pixels.push(data[idx + 1]);
                    pixels.push(data[idx + 2]);
                    pixels.push(data[idx + 3]);
                } else {
                    pixels.push(255);
                    pixels.push(255);
                    pixels.push(255);
                    pixels.push(255);
                }
            } else {
                pixels.push(255);
                pixels.push(255);
                pixels.push(255);
                pixels.push(255);
            }
            x = x + 1;
            proof {
                assert forall|yy: int, xx: int, ch: int|
                    0 <= yy < y && 0 <= xx < width && 0 <= ch < 4 implies pixels@[(yy * width + xx)
                    * 4 + ch] == assembled_channel(bw as int, bh as int, data@, xx, yy, ch) by {
                    lemma_row_major_bound(yy, xx, y as int, width as int);
                }
            }
        }
        y = y + 1;
        proof {
            assert(y * width * 4 == (y - 1) * width * 4 + width * 4) by (nonlinear_arith);
            assert forall|yy: int, xx: int, ch: int|
                0 <= yy < y && 0 <= xx < width && 0 <= ch < 4 implies pixels@[(yy * width + xx) * 4
                + ch] == assembled_channel(bw as int, bh as int, data@, xx, yy, ch) by {
                lemma_row_major_bound(yy, xx, y as int, width as int);
            }
        }
    }
    proof {
        assert(height * width * 4 == width * height * 4) by (nonlinear_arith);
    }
    RenderedPage { width, height, pixels, points_w, points_h }
}

/// The page count a freshly loaded document displays, resolved through the
/// loading tiers: the native backend's count when it gave a positive one,
/// else the structural parser's, else a single page when extracted text is
/// all that exists, else none yet.  Absent tiers count as zero.
pub fn resolve_page_count(native: Option<usize>, structural: Option<usize>, has_text: bool) -> (r:
    usize)
    ensures
        ({
            let n0: int = match native {
                Some(n) => n as int,
                None => 0,
            };
            let n1: int = if n0 == 0 {
                match structural {
                    Some(s) => s as int,
                    None => 0,
                }
            } else {
                n0
            };
            r as int == if n1 == 0 && has_text {
                1
            } else {
                n1
            }
        }),
{
    let n0: usize = match native {
        Some(n) => n,
        None => 0,
    };
    let n1: usize = if n0 == 0 {
        match structural {
            Some(s) => s,
            None => 0,
        }
    } else {
        n0
    };
    if n1 == 0 && has_text {
        1
    } else {
        n1
    }
}

/// Whether loading a document is over: some tier produced a page count, or
/// at least extracted text exists for the text-only view.  Until then the
/// caller keeps polling its loading tiers.
pub fn loading_complete(total_pages: usize, has_text: bool) -> (r: bool)
    ensures
        r == (total_pages > 0 || has_text),
{
    total_pages > 0 || has_text
}

/// Estimates which page a character offset of the extracted text falls on,
/// assuming characters spread evenly over the pages.  This is a best-effort
/// display aid for jumping to a search match, not a reliable page index.
pub fn estimate_page_for_offset(offset: usize, text_len: usize, total_pages: usize) -> (r: usize)
    requires
        offset <= text_len,
        offset <= 0xffffffff,
        total_pages <= 0xffffffff,
    ensures
        text_len == 0 || total_pages == 0 ==> r == 0,
        text_len > 0 && total_pages > 0 ==> r as int == if (offset as int) * (total_pages as int)
            / (text_len as int) <= total_pages - 1 {
            (offset as int) * (total_pages as int) / (text_len as int)
        } else {
            total_pages - 1
        },
{
    if text_len == 0 || total_pages == 0 {
        return 0;
    }
    proof {
        assert((offset as int) * (total_pages as int) <= 0xffffffff * 0xffffffff)
            by (nonlinear_arith)
            requires
                0 <= offset as int <= 0xffffffff,
                0 <= total_pages as int <= 0xffffffff,
        ;
        assert((offset as int) * (total_pages as int) / (text_len as int) >= 0)
            by (nonlinear_arith)
            requires
                offset as int >= 0,
                total_pages as int >= 0,
                text_len as int > 0,
        ;
    }
    let page = ((offset as u64) * (total_pages as u64)) / (text_len as u64);
    if page <= (total_pages - 1) as u64 {
        page as usize
    } else {
        total_pages - 1
    }
}

/// Picks the backend to try next: the first available one at or after
/// `from` in the priority order.  The caller walks the chain by retrying
/// from `k + 1` after backend `k` fails; once this returns nothing, every
/// backend is exhausted and the placeholder page stands in.
pub fn first_available_backend(available: &Vec<bool>, from: usize) -> (r: Option<usize>)
    ensures
        match r {
            Some(k) => from <= k < available@.len() && available@[k as int] && forall|j: int|
                from <= j < k ==> !available@[j],
            None => forall|j: int| from <= j < available@.len() ==> !available@[j],
        },
{
    let mut k: usize = from;
    while k < available.len()
        invariant
            from <= k,
            forall|j: int| from <= j < k ==> !available@[j],
        decreases available@.len() - k,
    {
        if available[k] {
            return Some(k);
        }
        k = k + 1;
    }
    None
}

/// The first cached page for `req`, scanning front to back.
pub open spec fn find_page(s: Seq<(PageRequest, RenderedPage)>, req: PageRequest) -> Option<
    RenderedPage,
>
    decreases s.len(),
{
    if s.len() == 0 {
        None
    } else if s[0].0 == req {
        Some(s[0].1)
    } else {
        find_page(s.drop_first(), req)
    }
}

proof fn lemma_page_push(s: Seq<(PageRequest, RenderedPage)>, e: (PageRequest, RenderedPage), x: PageRequest)
    ensures
        find_page(s.push(e), x) == if find_page(s, x) is Some {
            find_page(s, x)
        } else if e.0 == x {
            Some(e.1)
        } else {
            None::<RenderedPage>
        },
    decreases s.len(),
{
    if s.len() == 0 {
        assert(s.push(e)[0] == e);
        assert(s.push(e).drop_first() =~= Seq::<(PageRequest, RenderedPage)>::empty());
        assert(find_page(Seq::<(PageRequest, RenderedPage)>::empty(), x) is None);
    } else {
        assert(s.push(e)[0] == s[0]);
        assert(s.push(e).drop_first() =~= s.drop_first().push(e));
        lemma_page_push(s.drop_first(), e, x);
    }
}

proof fn lemma_page_update(
    s: Seq<(PageRequest, RenderedPage)>,
    k: int,
    e: (PageRequest, RenderedPage),
    x: PageRequest,
)
    requires
        0 <= k < s.len(),
        s[k].0 == e.0,
        forall|j: int| 0 <= j < k ==> (#[trigger] s[j]).0 != e.0,
    ensures
        find_page(s.update(k, e), x) == if x == e.0 {
            Some(e.1)
        } else {
            find_page(s, x)
        },
    decreases k,
{
    let u = s.update(k, e);
    if k == 0 {
        assert(u[0] == e);
        assert(u.drop_first() =~= s.drop_first());
    } else {
        assert(u[0] == s[0]);
        assert(u.drop_first() =~= s.drop_first().update(k - 1, e));
        assert(forall|j: int| 0 <= j < k - 1 ==> (#[trigger] s.drop_first()[j]).0 != e.0);
        lemma_page_update(s.drop_first(), k - 1, e, x);
    }
}

proof fn lemma_page_absent(s: Seq<(PageRequest, RenderedPage)>, x: PageRequest)
    requires
        forall|j: int| 0 <= j < s.len() ==> (#[trigger] s[j]).0 != x,
    ensures
        find_page(s, x) is None,
    decreases s.len(),
{
    if s.len() > 0 {
        assert(forall|j: int|
            0 <= j < s.drop_first().len() ==> (#[trigger] s.drop_first()[j]).0 != x);
        lemma_page_absent(s.drop_first(), x);
    }
}

proof fn lemma_page_skip(s: Seq<(PageRequest, RenderedPage)>, i: int, x: PageRequest)
    requires
        0 <= i < s.len(),
        s[i].0 != x,
    ensures
        find_page(s.skip(i), x) == find_page(s.skip(i + 1), x),
{
    assert(s.skip(i)[0] == s[i]);
    assert(s.skip(i).drop_first() =~= s.skip(i + 1));
}

/// The render state of a session: the pages already rendered and the set of
/// requests a backend is currently working on.
///
/// Per request the state machine is: not requested, rendering, then
/// rendered or failed.  `begin_render` is the only transition into
/// `rendering`, and it refuses a request that is already in flight or
/// already cached; `complete_render` is the only transition out, and it
/// always clears the in-flight entry, so a failed page can be retried.
pub struct PageRenderer {
    in_flight: Vec<PageRequest>,
    pages: Vec<(PageRequest, RenderedPage)>,
}

impl PageRenderer {
    /// No request is tracked twice.
    pub closed spec fn wf(&self) -> bool {
        &&& forall|i: int, j: int|
            0 <= i < j < self.in_flight@.len() ==> #[trigger] self.in_flight@[i] != (
            #[trigger] self.in_flight@[j])
        &&& forall|i: int, j: int|
            0 <= i < j < self.pages@.len() ==> (#[trigger] self.pages@[i]).0 != (
            #[trigger] self.pages@[j]).0
    }

    /// A backend invocation for `req` is currently running.
    pub closed spec fn spec_in_flight(&self, req: PageRequest) -> bool {
        self.in_flight@.contains(req)
    }

    /// The bitmap cached for `req`, if its render has succeeded.
    pub closed spec fn spec_rendered(&self, req: PageRequest) -> Option<RenderedPage> {
        find_page(self.pages@, req)
    }

    /// A render of `req` may start: none is running and no bitmap is
    /// cached.
    pub open spec fn spec_can_begin(&self, req: PageRequest) -> bool {
        !self.spec_in_flight(req) && self.spec_rendered(req) is None
    }

    /// A fresh renderer: nothing cached, nothing in flight.
    pub fn new() -> (r: PageRenderer)
        ensures
            r.wf(),
            forall|req: PageRequest| !r.spec_in_flight(req),
            forall|req: PageRequest| r.spec_rendered(req) is None,
    {
        let r = PageRenderer { in_flight: Vec::new(), pages: Vec::new() };
        proof {
            assert forall|req: PageRequest| r.spec_rendered(req) is None by {
                assert(find_page(r.pages@, req) is None);
            }
        }
        r
    }

    /// Checks whether a backend invocation for `req` is currently running.
    pub fn is_in_flight(&self, req: PageRequest) -> (r: bool)
        ensures
            r == self.spec_in_flight(req),
    {
        let mut i: usize = 0;
        while i < self.in_flight.len()
            invariant
                i <= self.in_flight@.len(),
                forall|j: int| 0 <= j < i ==> self.in_flight@[j] != req,
            decreases self.in_flight@.len() - i,
        {
            if self.in_flight[i] == req {
                proof {
                    assert(self.in_flight@[i as int] == req);
                }
                return true;
            }
            i = i + 1;
        }
        proof {
            if self.in_flight@.contains(req) {
                let j = choose|j: int|
                    0 <= j < self.in_flight@.len() && self.in_flight@[j] == req;
                assert(self.in_flight@[j] != req);
            }
        }
        false
    }

    /// The cached bitmap for `req`, if any.
    pub fn rendered(&self, req: PageRequest) -> (r: Option<&RenderedPage>)
        ensures
            match r {
                Some(p) => self.spec_rendered(req) == Some(*p),
                None => self.spec_rendered(req) is None,
            },
    {
        let mut i: usize = 0;
        proof {
            assert(self.pages@.skip(0) =~= self.pages@);
        }
        while i < self.pages.len()
            invariant
                i <= self.pages@.len(),
                find_page(self.pages@, req) == find_page(self.pages@.skip(i as int), req),
            decreases self.pages@.len() - i,
        {
            if self.pages[i].0 == req {
                proof {
                    assert(self.pages@.skip(i as int)[0] == self.pages@[i as int]);
                }
                return Some(&self.pages[i].1);
            }
            proof {
                lemma_page_skip(self.pages@, i as int, req);
            }
            i = i + 1;
        }
        proof {
            assert(self.pages@.skip(i as int) =~= Seq::<(PageRequest, RenderedPage)>::empty());
        }
        None
    }

    /// Tries to move `req` into the rendering state.  It starts — and the
    /// caller may invoke a backend — only when no render of the same page
    /// is running and no bitmap is cached, which keeps concurrent requests
    /// for one page down to a single backend invocation.
    pub fn begin_render(&mut self, req: PageRequest) -> (started: bool)
        requires
            old(self).wf(),
        ensures
            final(self).wf(),
            started == old(self).spec_can_begin(req),
            started ==> forall|x: PageRequest|
                final(self).spec_in_flight(x) == (x == req || old(self).spec_in_flight(x)),
            !started ==> *final(self) == *old(self),
            forall|x: PageRequest| final(self).spec_rendered(x) == old(self).spec_rendered(x),
    {
        if self.is_in_flight(req) {
            return false;
        }
        let cached = match self.rendered(req) {
            Some(_) => true,
            None => false,
        };
        if cached {
            return false;
        }
        let ghost prev = self.in_flight@;
        self.in_flight.push(req);
        proof {
            assert forall|x: PageRequest|
                final(self).spec_in_flight(x) == (x == req || old(self).spec_in_flight(x)) by {
                if self.in_flight@.contains(x) {
                    let j = choose|j: int|
                        0 <= j < self.in_flight@.len() && self.in_flight@[j] == x;
                    if j < prev.len() {
                        assert(prev[j] == x);
                    }
                }
                if prev.contains(x) {
                    let j = choose|j: int| 0 <= j < prev.len() && prev[j] == x;
                    assert(self.in_flight@[j] == x);
                }
                if x == req {
                    assert(self.in_flight@[self.in_flight@.len() - 1] == x);
                }
            }
            assert forall|a: int, b: int|
                0 <= a < b < self.in_flight@.len() implies #[trigger] self.in_flight@[a] != (
            #[trigger] self.in_flight@[b]) by {
                if b == self.in_flight@.len() - 1 {
                    assert(self.in_flight@[a] == prev[a]);
                    assert(prev.contains(prev[a]));
                } else {
                    assert(self.in_flight@[a] == prev[a]);
                    assert(self.in_flight@[b] == prev[b]);
                }
            }
        }
        true
    }

    /// Ends the render of `req`: the in-flight entry is cleared whatever
    /// the outcome, so the page can be retried after a failure, and a
    /// successful bitmap is cached for every later caller.
    pub fn complete_render(&mut self, req: PageRequest, outcome: Option<RenderedPage>)
        requires
            old(self).wf(),
        ensures
            final(self).wf(),
            !final(self).spec_in_flight(req),
            forall|x: PageRequest|
                x != req ==> final(self).spec_in_flight(x) == old(self).spec_in_flight(x),
            match outcome {
                Some(p) => final(self).spec_rendered(req) == Some(p) && forall|x: PageRequest|
                    x != req ==> final(self).spec_rendered(x) == old(self).spec_rendered(x),
                None => forall|x: PageRequest|
                    final(self).spec_rendered(x) == old(self).spec_rendered(x),
            },
    {
        self.remove_in_flight(req);
        match outcome {
            Some(p) => {
                self.store_page(req, p);
            },
            None => {},
        }
    }

    /// Drops every entry of the in-flight set equal to `req`.
    fn remove_in_flight(&mut self, req: PageRequest)
        requires
            old(self).wf(),
        ensures
            final(self).wf(),
            !final(self).spec_in_flight(req),
            forall|x: PageRequest|
                x != req ==> final(self).spec_in_flight(x) == old(self).spec_in_flight(x),
            final(self).pages == old(self).pages,
    {
        let n = self.in_flight.len();
        let mut i: usize = 0;
        while i < n
            invariant
                old(self).wf(),
                n == self.in_flight@.len(),
                i <= n,
                *self == *old(self),
                forall|j: int| 0 <= j < i ==> self.in_flight@[j] != req,
            decreases n - i,
        {
            if self.in_flight[i] == req {
                let ghost prev = self.in_flight@;
                self.in_flight.remove(i);
                proof {
                    assert(self.in_flight@ =~= prev.subrange(0, i as int) + prev.subrange(
                        i as int + 1,
                        prev.len() as int,
                    ));
                    assert forall|j: int|
                        0 <= j < self.in_flight@.len() implies #[trigger] self.in_flight@[j]
                        != req by {
                        if j < i {
                            assert(self.in_flight@[j] == prev[j]);
                        } else {
                            assert(self.in_flight@[j] == prev[j + 1]);
                            assert(old(self).in_flight@[i as int] != old(self).in_flight@[j + 1]);
                        }
                    }
                    assert(!self.in_flight@.contains(req)) by {
                        if self.in_flight@.contains(req) {
                            let j = choose|j: int|
                                0 <= j < self.in_flight@.len() && self.in_flight@[j] == req;
                            assert(self.in_flight@[j] != req);
                        }
                    }
                    assert forall|x: PageRequest| x != req implies self.in_flight@.contains(x)
                        == prev.contains(x) by {
                        if self.in_flight@.contains(x) {
                            let j = choose|j: int|
                                0 <= j < self.in_flight@.len() && self.in_flight@[j] == x;
                            if j < i {
                                assert(prev[j] == x);
                            } else {
                                assert(prev[j + 1] == x);
                            }
                        }
                        if prev.contains(x) {
                            let j = choose|j: int| 0 <= j < prev.len() && prev[j] == x;
                            if j < i {
                                assert(self.in_flight@[j] == x);
                            } else if j > i {
                                assert(self.in_flight@[j - 1] == x);
                            }
                        }
                    }
                    assert forall|a: int, b: int|
                        0 <= a < b < self.in_flight@.len() implies #[trigger] self.in_flight@[a]
                        != (#[trigger] self.in_flight@[b]) by {
                        let pa = if a < i { a } else { a + 1 };
                        let pb = if b < i { b } else { b + 1 };
                        if a < i {
                            assert(self.in_flight@[a] == prev.subrange(0, i as int)[a]);
                        } else {
                            assert(self.in_flight@[a] == prev.subrange(
                                i as int + 1,
                                prev.len() as int,
                            )[a - i]);
                        }
                        if b < i {
                            assert(self.in_flight@[b] == prev.subrange(0, i as int)[b]);
                        } else {
                            assert(self.in_flight@[b] == prev.subrange(
                                i as int + 1,
                                prev.len() as int,
                            )[b - i]);
                        }
                        assert(old(self).in_flight@[pa] != old(self).in_flight@[pb]);
                    }
                }
                return ;
            }
            i = i + 1;
        }
        proof {
            assert(!self.in_flight@.contains(req)) by {
                if self.in_flight@.contains(req) {
                    let j = choose|j: int|
                        0 <= j < self.in_flight@.len() && self.in_flight@[j] == req;
                    assert(self.in_flight@[j] != req);
                }
            }
        }
    }

    /// Caches the bitmap rendered for `req`, replacing any earlier one.
    fn store_page(&mut self, req: PageRequest, page: RenderedPage)
        requires
            old(self).wf(),
        ensures
            final(self).wf(),
            final(self).spec_rendered(req) == Some(page),
            forall|x: PageRequest|
                x != req ==> final(self).spec_rendered(x) == old(self).spec_rendered(x),
            final(self).in_flight == old(self).in_flight,
    {
        let n = self.pages.len();
        let mut i: usize = 0;
        while i < n
            invariant
                old(self).wf(),
                n == self.pages@.len(),
                i <= n,
                *self == *old(self),
                forall|j: int| 0 <= j < i ==> (#[trigger] self.pages@[j]).0 != req,
            decreases n - i,
        {
            if self.pages[i].0 == req {
                let ghost prev = self.pages@;
                self.pages[i] = (req, page);
                proof {
                    let e = self.pages@[i as int];
                    assert(forall|k: int|
                        0 <= k < self.pages@.len() ==> (#[trigger] self.pages@[k]).0 == prev[k].0);
                    assert forall|a: int, b: int|
                        0 <= a < b < self.pages@.len() implies (#[trigger] self.pages@[a]).0 != (
                    #[trigger] self.pages@[b]).0 by {
                        assert(old(self).pages@[a].0 != old(self).pages@[b].0);
                    }
                    assert forall|x: PageRequest| true implies find_page(self.pages@, x) == (if x
                        == req {
                        Some(e.1)
                    } else {
                        find_page(prev, x)
                    }) by {
                        lemma_page_update(prev, i as int, e, x);
                    }
                }
                return ;
            }
            i = i + 1;
        }
        let ghost prev = self.pages@;
        self.pages.push((req, page));
        proof {
            lemma_page_absent(prev, req);
            assert forall|x: PageRequest| true implies find_page(self.pages@, x) == (if x == req {
                Some(self.pages@.last().1)
            } else {
                find_page(prev, x)
            }) by {
                lemma_page_push(prev, self.pages@.last(), x);
            }
            assert forall|a: int, b: int|
                0 <= a < b < self.pages@.len() implies (#[trigger] self.pages@[a]).0 != (
            #[trigger] self.pages@[b]).0 by {
                if b == self.pages@.len() - 1 {
                    assert(self.pages@[a] == prev[a]);
                } else {
                    assert(self.pages@[a] == prev[a]);
                    assert(self.pages@[b] == prev[b]);
                    assert(old(self).pages@[a].0 != old(self).pages@[b].0);
                }
            }
        }
    }

    /// Drops every cached page, as when the open document is closed or
    /// replaced; in-flight renders are left to finish.
    pub fn clear_pages(&mut self)
        requires
            old(self).wf(),
        ensures
            final(self).wf(),
            forall|x: PageRequest| final(self).spec_rendered(x) is None,
            forall|x: PageRequest|
                final(self).spec_in_flight(x) == old(self).spec_in_flight(x),
    {
        self.pages = Vec::new();
        proof {
            assert forall|x: PageRequest| final(self).spec_rendered(x) is None by {
                assert(find_page(self.pages@, x) is None);
            }
        }
    }
}

/// At most one render per page: while a request is in flight, no second
/// backend invocation for the same request can start, so N concurrent
/// callers cause exactly one render and all of them read the same cached
/// bitmap once it completes.
pub proof fn lemma_at_most_one_in_flight(r: &PageRenderer, req: PageRequest)
    requires
        r.spec_in_flight(req),
    ensures
        !r.spec_can_begin(req),
{
}

/// A rendered page is never rendered again: once a bitmap is cached for a
/// request, no new render of it can start, so every caller observes that
/// same bitmap.
pub proof fn lemma_rendered_page_is_stable(r: &PageRenderer, req: PageRequest)
    requires
        r.spec_rendered(req) is Some,
    ensures
        !r.spec_can_begin(req),
{
}

} // verus!
