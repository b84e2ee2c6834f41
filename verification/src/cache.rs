//! The session text cache and the naming scheme of its on-disk sidecar.
//!
//! Extracted text is cached per document.  A document is identified by a
//! stable hash of its path, and each cache entry carries the fingerprint
//! (size and modification time) of the source file it was extracted from:
//! an entry is served only while the fingerprint still matches, so a changed
//! file can never be answered with stale text.  The on-disk tier lives in a
//! hidden sidecar directory next to the indexed root; this module computes
//! its layout and decides the validity of what was read back, while the
//! reads and writes themselves stay with the caller.

use vstd::prelude::*;
use vstd::string::StringExecFns;

use crate::extract::SafeExtractor;
use crate::extract::outcome_text;
use crate::strutil::chars_of;
use crate::strutil::push_chars;
use crate::strutil::rfind;
use crate::strutil::rfind_from;
use crate::strutil::string_from_chars;
use crate::strutil::subvec;
use crate::utils::file_name_of;

verus! {

/// The cheap validity signal of a cache entry: the source file's byte
/// length and modification time at extraction.
#[derive(Clone, Copy, Debug, PartialEq, Eq, Structural)]
pub struct Fingerprint {
    pub size: u64,
    pub mtime: u64,
}

pub const FNV_OFFSET: u64 = 0xcbf29ce484222325;

pub const FNV_PRIME: u64 = 0x100000001b3;

/// One round of the FNV-1a hash over a character's code point.
pub open spec fn fnv_update(h: u64, c: char) -> u64 {
    (((h ^ (c as u64)) as u128) * (FNV_PRIME as u128)) as u64
}

/// The FNV-1a hash of the characters of `p`, continued from state `h`.
pub open spec fn doc_id_from(h: u64, p: Seq<char>) -> u64
    decreases p.len(),
{
    if p.len() == 0 {
        h
    } else {
        doc_id_from(fnv_update(h, p[0]), p.drop_first())
    }
}

/// The stable identifier of a document: the FNV-1a hash of its path.
pub open spec fn doc_id_of(p: Seq<char>) -> u64 {
    doc_id_from(FNV_OFFSET, p)
}

/// Derives the stable identifier of a document from its path.
pub fn document_id(path: &str) -> (r: u64)
    ensures
        r == doc_id_of(path@),
{
    let v = chars_of(path);
    let mut h: u64 = FNV_OFFSET;
    let mut i: usize = 0;
    proof {
        assert(v@.skip(0) =~= v@);
    }
    while i < v.len()
        invariant
            v@ == path@,
            i <= v@.len(),
            doc_id_from(h, v@.skip(i as int)) == doc_id_of(path@),
        decreases v@.len() - i,
    {
        let ghost pre = v@.skip(i as int);
        let c = v[i];
        let x = h ^ (c as u64);
        h = #[verifier::truncate] (((x as u128) * (FNV_PRIME as u128)) as u64);
        i = i + 1;
        proof {
            assert(pre[0] == c);
            assert(pre.drop_first() =~= v@.skip(i as int));
        }
    }
    proof {
        assert(v@.skip(v@.len() as int) =~= Seq::<char>::empty());
    }
    h
}

/// The first entry for `id`, scanning front to back.
pub open spec fn spec_find(s: Seq<(u64, Fingerprint, String)>, id: u64) -> Option<
    (Fingerprint, Seq<char>),
>
    decreases s.len(),
{
    if s.len() == 0 {
        None
    } else if s[0].0 == id {
        Some((s[0].1, s[0].2@))
    } else {
        spec_find(s.drop_first(), id)
    }
}

proof fn lemma_find_push(s: Seq<(u64, Fingerprint, String)>, e: (u64, Fingerprint, String), x: u64)
    ensures
        spec_find(s.push(e), x) == if spec_find(s, x) is Some {
            spec_find(s, x)
        } else if e.0 == x {
            Some((e.1, e.2@))
        } else {
            None::<(Fingerprint, Seq<char>)>
        },
    decreases s.len(),
{
    if s.len() == 0 {
        assert(s.push(e)[0] == e);
        assert(s.push(e).drop_first() =~= Seq::<(u64, Fingerprint, String)>::empty());
        assert(spec_find(Seq::<(u64, Fingerprint, String)>::empty(), x) is None);
    } else {
        assert(s.push(e)[0] == s[0]);
        assert(s.push(e).drop_first() =~= s.drop_first().push(e));
        lemma_find_push(s.drop_first(), e, x);
    }
}

proof fn lemma_find_update(
    s: Seq<(u64, Fingerprint, String)>,
    k: int,
    e: (u64, Fingerprint, String),
    x: u64,
)
    requires
        0 <= k < s.len(),
        s[k].0 == e.0,
        forall|j: int| 0 <= j < k ==> (#[trigger] s[j]).0 != e.0,
    ensures
        spec_find(s.update(k, e), x) == if x == e.0 {
            Some((e.1, e.2@))
        } else {
            spec_find(s, x)
        },
    decreases k,
{
    let u = s.update(k, e);
    if k == 0 {
        assert(u[0] == e);
        assert(u.drop_first() =~= s.drop_first());
    } else {
        assert(u[0] == s[0]);
        assert(u.drop_first() =~= s.drop_first().update(k - 1, e));
        assert(forall|j: int| 0 <= j < k - 1 ==> (#[trigger] s.drop_first()[j]).0 != e.0);
        lemma_find_update(s.drop_first(), k - 1, e, x);
    }
}

proof fn lemma_find_remove(s: Seq<(u64, Fingerprint, String)>, k: int, x: u64)
    requires
        0 <= k < s.len(),
        s[k].0 != x,
    ensures
        spec_find(s.remove(k), x) == spec_find(s, x),
    decreases k,
{
    let u = s.remove(k);
    if k == 0 {
        assert(u =~= s.drop_first());
    } else {
        assert(u[0] == s[0]);
        assert(u.drop_first() =~= s.drop_first().remove(k - 1));
        lemma_find_remove(s.drop_first(), k - 1, x);
    }
}

proof fn lemma_find_absent(s: Seq<(u64, Fingerprint, String)>, x: u64)
    requires
        forall|j: int| 0 <= j < s.len() ==> (#[trigger] s[j]).0 != x,
    ensures
        spec_find(s, x) is None,
    decreases s.len(),
{
    if s.len() > 0 {
        assert(forall|j: int|
            0 <= j < s.drop_first().len() ==> (#[trigger] s.drop_first()[j]).0 != x);
        lemma_find_absent(s.drop_first(), x);
    }
}

proof fn lemma_find_skip(s: Seq<(u64, Fingerprint, String)>, i: int, x: u64)
    requires
        0 <= i < s.len(),
        s[i].0 != x,
    ensures
        spec_find(s.skip(i), x) == spec_find(s.skip(i + 1), x),
{
    assert(s.skip(i)[0] == s[i]);
    assert(s.skip(i).drop_first() =~= s.skip(i + 1));
}

/// The in-memory tier of the text cache: one entry per document, holding
/// the fingerprint the text was extracted under.
pub struct TieredTextCache {
    entries: Vec<(u64, Fingerprint, String)>,
}

impl TieredTextCache {
    /// Each document has at most one entry.
    pub closed spec fn wf(&self) -> bool {
        forall|i: int, j: int|
            0 <= i < j < self.entries@.len() ==> (#[trigger] self.entries@[i]).0 != (
            #[trigger] self.entries@[j]).0
    }

    /// The fingerprint and text cached for a document, if any.
    pub closed spec fn lookup_spec(&self, id: u64) -> Option<(Fingerprint, Seq<char>)> {
        spec_find(self.entries@, id)
    }

    /// The text the cache serves for a document with the given current
    /// fingerprint: the cached text when the entry was made under the same
    /// fingerprint, nothing otherwise.
    pub open spec fn spec_probe(&self, id: u64, fp: Fingerprint) -> Option<Seq<char>> {
        match self.lookup_spec(id) {
            Some((efp, t)) => if efp == fp {
                Some(t)
            } else {
                None
            },
            None => None,
        }
    }

    /// An empty cache.
    pub fn new() -> (r: TieredTextCache)
        ensures
            r.wf(),
            forall|id: u64| r.lookup_spec(id) is None,
    {
        let r = TieredTextCache { entries: Vec::new() };
        proof {
            assert forall|id: u64| r.lookup_spec(id) is None by {
                assert(spec_find(r.entries@, id) is None);
            }
        }
        r
    }

    /// Looks a document up in the memory tier, serving the entry only when
    /// its fingerprint matches the file's current one.
    pub fn probe(&self, id: u64, fp: Fingerprint) -> (r: Option<String>)
        ensures
            match r {
                Some(t) => self.spec_probe(id, fp) == Some(t@),
                None => self.spec_probe(id, fp) is None,
            },
    {
        let mut i: usize = 0;
        proof {
            assert(self.entries@.skip(0) =~= self.entries@);
        }
        while i < self.entries.len()
            invariant
                i <= self.entries@.len(),
                spec_find(self.entries@, id) == spec_find(self.entries@.skip(i as int), id),
            decreases self.entries@.len() - i,
        {
            if self.entries[i].0 == id {
                proof {
                    assert(self.entries@.skip(i as int)[0] == self.entries@[i as int]);
                }
                if self.entries[i].1 == fp {
                    return Some(self.entries[i].2.clone());
                } else {
                    return None;
                }
            }
            proof {
                lemma_find_skip(self.entries@, i as int, id);
            }
            i = i + 1;
        }
        proof {
            assert(self.entries@.skip(i as int) =~= Seq::<(u64, Fingerprint, String)>::empty());
        }
        None
    }

    /// Records the text extracted for a document under the fingerprint of
    /// the source it came from, replacing any earlier entry.
    pub fn store(&mut self, id: u64, fp: Fingerprint, text: String)
        requires
            old(self).wf(),
        ensures
            final(self).wf(),
            final(self).lookup_spec(id) == Some((fp, text@)),
            forall|x: u64| x != id ==> final(self).lookup_spec(x) == old(self).lookup_spec(x),
    {
        let n = self.entries.len();
        let mut i: usize = 0;
        while i < n
            invariant
                old(self).wf(),
                n == self.entries@.len(),
                i <= n,
                *self == *old(self),
                forall|j: int| 0 <= j < i ==> (#[trigger] self.entries@[j]).0 != id,
            decreases n - i,
        {
            if self.entries[i].0 == id {
                let ghost prev = self.entries@;
                self.entries[i] = (id, fp, text);
                proof {
                    let e = self.entries@[i as int];
                    assert(forall|k: int|
                        0 <= k < self.entries@.len() ==> (#[trigger] self.entries@[k]).0 == prev[k].0);
                    assert forall|a: int, b: int|
                        0 <= a < b < self.entries@.len() implies (#[trigger] self.entries@[a]).0
                        != (#[trigger] self.entries@[b]).0 by {
                        assert(self.entries@[a].0 == prev[a].0);
                        assert(self.entries@[b].0 == prev[b].0);
                        assert(old(self).entries@[a].0 != old(self).entries@[b].0);
                    }
                    assert forall|x: u64| true implies spec_find(self.entries@, x) == (if x == id {
                        Some((fp, e.2@))
                    } else {
                        spec_find(prev, x)
                    }) by {
                        lemma_find_update(prev, i as int, e, x);
                    }
                }
                return ;
            }
            i = i + 1;
        }
        let ghost prev = self.entries@;
        self.entries.push((id, fp, text));
        proof {
            lemma_find_absent(prev, id);
            assert forall|x: u64| true implies spec_find(self.entries@, x) == (if x == id {
                Some((fp, self.entries@.last().2@))
            } else {
                spec_find(prev, x)
            }) by {
                lemma_find_push(prev, self.entries@.last(), x);
            }
            assert forall|a: int, b: int|
                0 <= a < b < self.entries@.len() implies (#[trigger] self.entries@[a]).0 != (
            #[trigger] self.entries@[b]).0 by {
                if b == self.entries@.len() - 1 {
                    assert(self.entries@[a] == prev[a]);
                } else {
                    assert(self.entries@[a] == prev[a]);
                    assert(self.entries@[b] == prev[b]);
                }
            }
        }
    }

    /// Drops the entry of one document, leaving every other entry as it is.
    pub fn invalidate(&mut self, id: u64)
        requires
            old(self).wf(),
        ensures
            final(self).wf(),
            final(self).lookup_spec(id) is None,
            forall|x: u64| x != id ==> final(self).lookup_spec(x) == old(self).lookup_spec(x),
    {
        let n = self.entries.len();
        let mut i: usize = 0;
        while i < n
            invariant
                old(self).wf(),
                n == self.entries@.len(),
                i <= n,
                *self == *old(self),
                forall|j: int| 0 <= j < i ==> (#[trigger] self.entries@[j]).0 != id,
            decreases n - i,
        {
            if self.entries[i].0 == id {
                let ghost prev = self.entries@;
                self.entries.remove(i);
                proof {
                    assert(self.entries@ =~= prev.subrange(0, i as int) + prev.subrange(
                        i as int + 1,
                        prev.len() as int,
                    ));
                    assert forall|j: int|
                        0 <= j < self.entries@.len() implies (#[trigger] self.entries@[j]).0
                        != id by {
                        if j < i {
                            assert(self.entries@[j] == prev.subrange(0, i as int)[j]);
                            assert(self.entries@[j] == prev[j]);
                        } else {
                            assert(self.entries@[j] == prev.subrange(
                                i as int + 1,
                                prev.len() as int,
                            )[j - i]);
                            assert(self.entries@[j] == prev[j + 1]);
                            assert(old(self).entries@[i as int].0 != old(self).entries@[j + 1].0);
                        }
                    }
                    lemma_find_absent(self.entries@, id);
                    assert forall|x: u64| x != id implies spec_find(self.entries@, x) == spec_find(
                        prev,
                        x,
                    ) by {
                        lemma_find_remove(prev, i as int, x);
                    }
                    assert forall|a: int, b: int|
                        0 <= a < b < self.entries@.len() implies (#[trigger] self.entries@[a]).0
                        != (#[trigger] self.entries@[b]).0 by {
                        let pa = if a < i { a } else { a + 1 };
                        let pb = if b < i { b } else { b + 1 };
                        if a < i {
                            assert(self.entries@[a] == prev.subrange(0, i as int)[a]);
                        } else {
                            assert(self.entries@[a] == prev.subrange(
                                i as int + 1,
                                prev.len() as int,
                            )[a - i]);
                        }
                        if b < i {
                            assert(self.entries@[b] == prev.subrange(0, i as int)[b]);
                        } else {
                            assert(self.entries@[b] == prev.subrange(
                                i as int + 1,
                                prev.len() as int,
                            )[b - i]);
                        }
                        assert(self.entries@[a] == prev[pa]);
                        assert(self.entries@[b] == prev[pb]);
                        assert(old(self).entries@[pa].0 != old(self).entries@[pb].0);
                    }
                }
                return ;
            }
            i = i + 1;
        }
        proof {
            lemma_find_absent(self.entries@, id);
        }
    }

    /// Serves a document's text from the memory tier when the cached entry
    /// is still valid for `fp`; otherwise classifies the guarded extraction
    /// outcome the caller produced, records its text under `fp`, and
    /// returns it, degraded to empty text on a parser failure.  The flag
    /// says whether the outcome was consumed, so the caller knows when to
    /// persist the result.
    ///
    /// For an unchanged file the cache accepts at most one extraction
    /// result: a later call is a hit that leaves the cache untouched and
    /// never consults its outcome.  A caller that also wants to *run* the
    /// extraction at most once probes first and produces the outcome only
    /// on a miss, as the accompanying binary does.
    pub fn get_or_extract(&mut self, id: u64, fp: Fingerprint, outcome: Option<String>) -> (r: (
        String,
        bool,
    ))
        requires
            old(self).wf(),
        ensures
            final(self).wf(),
            old(self).spec_probe(id, fp) matches Some(t) ==> r.0@ == t && !r.1 && *final(self)
                == *old(self),
            old(self).spec_probe(id, fp) is None ==> r.0@ == outcome_text(outcome) && r.1
                && final(self).lookup_spec(id) == Some((fp, r.0@)) && (forall|x: u64|
                x != id ==> final(self).lookup_spec(x) == old(self).lookup_spec(x)),
    {
        match self.probe(id, fp) {
            Some(t) => (t, false),
            None => {
                let text = SafeExtractor::extract_or_empty(outcome);
                self.store(id, fp, text.clone());
                (text, true)
            },
        }
    }

    /// Admits an entry read back from the on-disk tier: a stored text is
    /// taken into the memory tier only when it was written under the file's
    /// current fingerprint; anything else is a cache miss, never an error.
    pub fn admit_disk_entry(
        &mut self,
        id: u64,
        current: Fingerprint,
        stored: Fingerprint,
        text: String,
    ) -> (r: bool)
        requires
            old(self).wf(),
        ensures
            final(self).wf(),
            r == (stored == current),
            r ==> final(self).lookup_spec(id) == Some((current, text@)) && (forall|x: u64|
                x != id ==> final(self).lookup_spec(x) == old(self).lookup_spec(x)),
            !r ==> *final(self) == *old(self),
    {
        if stored == current {
            self.store(id, current, text);
            true
        } else {
            false
        }
    }
}

/// Serving is idempotent: once a text stands in the cache under a
/// document's current fingerprint, a probe with that fingerprint returns
/// exactly that text, so repeated `get_or_extract` calls on an unchanged
/// file serve the first stored text and consume no further extraction
/// outcome.
pub proof fn lemma_cached_text_is_served(
    c: &TieredTextCache,
    id: u64,
    fp: Fingerprint,
    t: Seq<char>,
)
    requires
        c.lookup_spec(id) == Some((fp, t)),
    ensures
        c.spec_probe(id, fp) == Some(t),
{
}

/// Invalidation by fingerprint: a cache entry written for one version of a
/// file is never served once the file's fingerprint has changed.
pub proof fn lemma_changed_fingerprint_misses(
    c: &TieredTextCache,
    id: u64,
    stored: Fingerprint,
    current: Fingerprint,
    t: Seq<char>,
)
    requires
        c.lookup_spec(id) == Some((stored, t)),
        stored != current,
    ensures
        c.spec_probe(id, current) is None,
{
}

/// The stem of the final path component: the component itself when it has
/// no dot past its first character, otherwise the part before its last dot.
pub open spec fn file_stem_of(p: Seq<char>) -> Seq<char> {
    let name = file_name_of(p);
    let dot = rfind(name, '.', name.len() - 1);
    if dot >= 1 {
        name.subrange(0, dot)
    } else {
        name
    }
}

/// The sidecar file that caches one document's text: the document's stem
/// with a `.txt` suffix, inside the cache directory.
pub fn get_cache_path(pdf_path: &str, cache_dir: &str) -> (r: String)
    ensures
        r@ == cache_dir@ + "/"@ + file_stem_of(pdf_path@) + ".txt"@,
{
    let v = chars_of(pdf_path);
    let name = if v.len() == 0 {
        subvec(&v, 0, 0)
    } else {
        match rfind_from(&v, '/', v.len() - 1) {
            Some(k) => subvec(&v, k + 1, v.len()),
            None => subvec(&v, 0, v.len()),
        }
    };
    let stem = if name.len() == 0 {
        name
    } else {
        match rfind_from(&name, '.', name.len() - 1) {
            Some(d) => if d >= 1 {
                subvec(&name, 0, d)
            } else {
                name
            },
            None => name,
        }
    };
    let mut out = chars_of(cache_dir);
    out.push('/');
    push_chars(&mut out, &stem);
    let dir_part = string_from_chars(&out);
    proof {
        reveal_strlit("/");
        assert(out@ =~= cache_dir@ + "/"@ + file_stem_of(pdf_path@));
    }
    dir_part.concat(".txt")
}

/// The hidden sidecar directory that holds the disk tier for one indexed
/// root.
pub fn get_cache_directory(pdf_dir: &str) -> (r: String)
    ensures
        r@ == pdf_dir@ + "/.pdfscan"@,
{
    pdf_dir.to_owned().concat("/.pdfscan")
}

} // verus!
