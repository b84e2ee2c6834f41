//! Substring search over extracted document text.
//!
//! The matcher works on characters: it finds the non-overlapping, leftmost
//! occurrences of a query inside a text, optionally after lowercasing both
//! sides, and hands back each occurrence with a window of surrounding
//! context.  `SearchPanel` keeps the state of a corpus search session: the
//! query, the documents discovered under a directory, their extracted text,
//! and the results of the last search.

use vstd::prelude::*;
use vstd::string::StrSliceExecFns;
use vstd::string::StringExecFns;

use crate::strutil::chars_of;
use crate::strutil::lower_of;
use crate::strutil::lowercase;
use crate::strutil::min_usize;
use crate::strutil::sat_add;
use crate::utils::file_name;
use crate::utils::file_name_of;

verus! {

/// `q` occurs in `t` starting at position `i`.
pub open spec fn match_at(t: Seq<char>, q: Seq<char>, i: int) -> bool {
    &&& 0 <= i
    &&& i + q.len() <= t.len()
    &&& t.subrange(i, i + q.len()) == q
}

/// The positions of the non-overlapping, leftmost occurrences of `q` in `t`
/// at or after position `i`: the scan advances past each match it finds and
/// by one character otherwise.
pub open spec fn occurrences_from(t: Seq<char>, q: Seq<char>, i: int) -> Seq<int>
    decreases t.len() - i,
{
    if q.len() == 0 || i < 0 || i + q.len() > t.len() {
        Seq::empty()
    } else if match_at(t, q, i) {
        seq![i] + occurrences_from(t, q, i + q.len())
    } else {
        occurrences_from(t, q, i + 1)
    }
}

/// The positions of the non-overlapping, leftmost occurrences of `q` in `t`.
/// An empty query has no occurrences.
pub open spec fn occurrences(t: Seq<char>, q: Seq<char>) -> Seq<int> {
    occurrences_from(t, q, 0)
}

/// `t` contains `q`; every text contains the empty query.
pub open spec fn text_contains(t: Seq<char>, q: Seq<char>) -> bool {
    q.len() == 0 || exists|i: int| match_at(t, q, i)
}

/// Compares `q` against the characters of `t` starting at `i`.
fn is_match_at(t: &Vec<char>, q: &Vec<char>, i: usize) -> (r: bool)
    requires
        i + q@.len() <= t@.len(),
    ensures
        r == match_at(t@, q@, i as int),
{
    let n = t.len();
    let mut j: usize = 0;
    while j < q.len()
        invariant
            n == t@.len(),
            i + q@.len() <= t@.len(),
            j <= q@.len(),
            forall|k: int| 0 <= k < j ==> t@[i + k] == q@[k],
        decreases q@.len() - j,
    {
        if t[i + j] != q[j] {
            proof {
                assert(t@.subrange(i as int, i + q@.len())[j as int] == t@[i + j]);
            }
            return false;
        }
        j = j + 1;
    }
    proof {
        assert(t@.subrange(i as int, i + q@.len()) =~= q@);
    }
    true
}

/// Finds the non-overlapping, leftmost occurrences of `q` in `t`.
pub fn find_occurrences(t: &Vec<char>, q: &Vec<char>) -> (r: Vec<usize>)
    ensures
        r@.map_values(|k: usize| k as int) == occurrences(t@, q@),
        forall|j: int| 0 <= j < r@.len() ==> r@[j] + q@.len() <= t@.len(),
{
    let ghost occs = occurrences(t@, q@);
    let mut r: Vec<usize> = Vec::new();
    if q.len() == 0 || q.len() > t.len() {
        proof {
            assert(r@.map_values(|k: usize| k as int) =~= occurrences(t@, q@));
        }
        return r;
    }
    let mut i: usize = 0;
    while i <= t.len() - q.len()
        invariant
            0 < q@.len() <= t@.len(),
            i <= t@.len(),
            occurrences(t@, q@) == r@.map_values(|k: usize| k as int) + occurrences_from(
                t@,
                q@,
                i as int,
            ),
            forall|j: int| 0 <= j < r@.len() ==> r@[j] + q@.len() <= t@.len(),
        decreases t@.len() - i,
    {
        if is_match_at(t, q, i) {
            let ghost prev = r@;
            r.push(i);
            proof {
                assert(r@.map_values(|k: usize| k as int) =~= prev.map_values(
                    |k: usize| k as int,
                ) + seq![i as int]);
                assert(prev.map_values(|k: usize| k as int) + (seq![i as int]
                    + occurrences_from(t@, q@, i + q@.len())) =~= r@.map_values(
                    |k: usize| k as int,
                ) + occurrences_from(t@, q@, i + q@.len()));
            }
            i = i + q.len();
        } else {
            i = i + 1;
        }
    }
    proof {
        assert(occurrences_from(t@, q@, i as int) =~= Seq::<int>::empty());
        assert(r@.map_values(|k: usize| k as int) =~= occurrences(t@, q@));
    }
    r
}

/// There are never more occurrences than characters.
pub(crate) proof fn lemma_occurrences_len(t: Seq<char>, q: Seq<char>, i: int)
    ensures
        occurrences_from(t, q, i).len() <= t.len(),
        0 <= i && q.len() > 0 ==> occurrences_from(t, q, i).len() + i <= t.len() || occurrences_from(
            t,
            q,
            i,
        ).len() == 0,
    decreases t.len() - i,
{
    if q.len() == 0 || i < 0 || i + q.len() > t.len() {
    } else if match_at(t, q, i) {
        lemma_occurrences_len(t, q, i + q.len());
    } else {
        lemma_occurrences_len(t, q, i + 1);
    }
}

/// Counts the non-overlapping occurrences of `q` in `t`.
pub fn count_occurrences(t: &Vec<char>, q: &Vec<char>) -> (r: usize)
    ensures
        r == occurrences(t@, q@).len(),
{
    let occ = find_occurrences(t, q);
    proof {
        assert(occ@.map_values(|k: usize| k as int).len() == occ@.len());
    }
    occ.len()
}

/// Scans `t` for any occurrence of `q`.
pub fn contains_query(t: &Vec<char>, q: &Vec<char>) -> (r: bool)
    ensures
        r == text_contains(t@, q@),
{
    if q.len() == 0 {
        return true;
    }
    if q.len() > t.len() {
        proof {
            assert(forall|i: int| !match_at(t@, q@, i));
        }
        return false;
    }
    let mut i: usize = 0;
    while i <= t.len() - q.len()
        invariant
            0 < q@.len() <= t@.len(),
            i <= t@.len(),
            forall|k: int| 0 <= k < i ==> !match_at(t@, q@, k),
        decreases t@.len() - i,
    {
        if is_match_at(t, q, i) {
            return true;
        }
        i = i + 1;
    }
    proof {
        assert(forall|k: int| match_at(t@, q@, k) ==> 0 <= k < i);
    }
    false
}

/// Decides whether a document's extracted text contains the search phrase,
/// character for character; every text contains the empty phrase.
pub fn search_phrase_in_pdf(text: &str, search_phrase: &str) -> (r: bool)
    ensures
        r == text_contains(text@, search_phrase@),
{
    let t = chars_of(text);
    let q = chars_of(search_phrase);
    contains_query(&t, &q)
}

/// The query and text a search actually compares: the characters themselves
/// for a case-sensitive search, their lowercase form otherwise.
pub open spec fn effective_text(cs: bool, s: Seq<char>) -> Seq<char> {
    if cs {
        s
    } else {
        lower_of(s)
    }
}

/// The context shown for a match at position `p`: up to forty characters of
/// the original text on either side of the matched span, clamped to the
/// text.  Positions refer to the searched (possibly lowercased) text, so the
/// window is also clamped from below.
pub open spec fn context_window(t: Seq<char>, p: int, qlen: int) -> Seq<char> {
    let lo0 = if p >= 40 {
        p - 40
    } else {
        0
    };
    let lo = if lo0 <= t.len() {
        lo0
    } else {
        t.len() as int
    };
    let hi = if p + qlen + 40 <= t.len() {
        p + qlen + 40
    } else {
        t.len() as int
    };
    t.subrange(lo, hi)
}

/// One occurrence of the query inside a document's text: the position of
/// the match in the searched text — a character index, not a byte offset —
/// and the surrounding context.
pub struct MatchResult {
    pub position: usize,
    pub text: String,
}

/// All occurrences of the query inside one document.
pub struct SearchResult {
    pub file_path: String,
    pub file_name: String,
    pub match_count: usize,
    pub match_list: Vec<MatchResult>,
}

/// The state of a corpus search session.
pub struct SearchPanel {
    pub search_query: String,
    pub case_sensitive: bool,
    pub create_zip: bool,
    pub directory_path: Option<String>,
    pub loaded_pdfs: Vec<String>,
    pub pdf_cache: Vec<(String, String)>,
    pub search_results: Vec<SearchResult>,
    pub is_loading_directory: bool,
    pub directory_loading_progress: Option<(usize, usize)>,
}

/// The match list `search_in_text` owes for one text: one entry per
/// occurrence, carrying the position and its context window.
pub open spec fn match_list_spec(r: Seq<MatchResult>, text: Seq<char>, q: Seq<char>, cs: bool) -> bool {
    let occ = occurrences(effective_text(cs, text), effective_text(cs, q));
    &&& r.len() == occ.len()
    &&& forall|k: int|
        0 <= k < occ.len() ==> (#[trigger] r[k]).position == occ[k] && r[k].text@
            == context_window(text, occ[k], effective_text(cs, q).len() as int)
}

impl SearchPanel {
    /// A fresh session: no query, case-insensitive, nothing loaded.
    pub fn new() -> (r: SearchPanel)
        ensures
            r.search_query@ == Seq::<char>::empty(),
            r.case_sensitive == false,
            r.create_zip == false,
            r.directory_path is None,
            r.loaded_pdfs@ == Seq::<String>::empty(),
            r.pdf_cache@ == Seq::<(String, String)>::empty(),
            r.search_results@ == Seq::<SearchResult>::empty(),
            r.is_loading_directory == false,
            r.directory_loading_progress is None,
    {
        SearchPanel {
            search_query: String::new(),
            case_sensitive: false,
            create_zip: false,
            directory_path: None,
            loaded_pdfs: Vec::new(),
            pdf_cache: Vec::new(),
            search_results: Vec::new(),
            is_loading_directory: false,
            directory_loading_progress: None,
        }
    }

    /// Opens a directory for searching: records the path and the documents
    /// discovered under it, and resets the session's text store and results.
    /// Extracted text arrives afterwards through `record_extracted`.
    pub fn load_directory(&mut self, dir_path: &str, discovered: Vec<String>)
        ensures
            final(self).directory_path matches Some(d) && d@ == dir_path@,
            final(self).loaded_pdfs == discovered,
            final(self).pdf_cache@ == Seq::<(String, String)>::empty(),
            final(self).search_results@ == Seq::<SearchResult>::empty(),
            final(self).is_loading_directory == (discovered@.len() > 0),
            final(self).directory_loading_progress matches Some(p) && p == (
                0usize,
                discovered.len(),
            ),
            final(self).search_query == old(self).search_query,
            final(self).case_sensitive == old(self).case_sensitive,
            final(self).create_zip == old(self).create_zip,
    {
        let n = discovered.len();
        self.directory_path = Some(dir_path.to_owned());
        self.loaded_pdfs = discovered;
        self.pdf_cache = Vec::new();
        self.search_results = Vec::new();
        self.is_loading_directory = n > 0;
        self.directory_loading_progress = Some((0, n));
    }

    /// Stores the extracted text of one loaded document and advances the
    /// loading progress; empty text (a failed extraction) is recorded as
    /// progress only, matching the skip-and-continue indexing policy.
    pub fn record_extracted(&mut self, path: String, text: String)
        ensures
            text@.len() > 0 ==> final(self).pdf_cache@ == old(self).pdf_cache@.push(
                (path, text),
            ),
            text@.len() == 0 ==> final(self).pdf_cache == old(self).pdf_cache,
            final(self).directory_loading_progress == match old(self).directory_loading_progress {
                Some(p) => Some(
                    (
                        if p.0 < p.1 {
                            (p.0 + 1) as usize
                        } else {
                            p.0
                        },
                        p.1,
                    ),
                ),
                None => None::<(usize, usize)>,
            },
            final(self).is_loading_directory == match final(self).directory_loading_progress {
                Some(p) => p.0 < p.1,
                None => false,
            },
            final(self).search_query == old(self).search_query,
            final(self).case_sensitive == old(self).case_sensitive,
            final(self).create_zip == old(self).create_zip,
            final(self).directory_path == old(self).directory_path,
            final(self).loaded_pdfs == old(self).loaded_pdfs,
            final(self).search_results == old(self).search_results,
    {
        if text.unicode_len() > 0 {
            self.pdf_cache.push((path, text));
        }
        match self.directory_loading_progress {
            Some((done, total)) => {
                let next = if done < total {
                    done + 1
                } else {
                    done
                };
                self.directory_loading_progress = Some((next, total));
                self.is_loading_directory = next < total;
            },
            None => {
                self.is_loading_directory = false;
            },
        }
    }

    /// Finds every occurrence of the session's query in one text.
    ///
    /// An empty query matches nothing.  For a case-insensitive search both
    /// the query and the text are lowercased first; positions are character
    /// indices into the searched text (never byte offsets), while each
    /// context window is cut from the original text.
    pub fn search_in_text(&self, text: &str) -> (r: Vec<MatchResult>)
        ensures
            self.search_query@.len() == 0 ==> r@.len() == 0,
            self.search_query@.len() > 0 ==> match_list_spec(
                r@,
                text@,
                self.search_query@,
                self.case_sensitive,
            ),
    {
        let mut out: Vec<MatchResult> = Vec::new();
        if self.search_query.unicode_len() == 0 {
            return out;
        }
        let t_str: String;
        let q_str: String;
        if self.case_sensitive {
            t_str = text.to_owned();
            q_str = self.search_query.clone();
        } else {
            t_str = lowercase(text);
            q_str = lowercase(self.search_query.as_str());
        }
        let tc = chars_of(t_str.as_str());
        let qc = chars_of(q_str.as_str());
        let occ = find_occurrences(&tc, &qc);
        let text_len = text.unicode_len();
        let qlen = qc.len();
        let ghost occs = occurrences(tc@, qc@);
        let mut k: usize = 0;
        while k < occ.len()
            invariant
                occ@.map_values(|p: usize| p as int) == occs,
                text_len == text@.len(),
                qlen == qc@.len(),
                k <= occ@.len(),
                out@.len() == k,
                forall|j: int|
                    0 <= j < k ==> (#[trigger] out@[j]).position == occs[j] && out@[j].text@
                        == context_window(text@, occs[j], qlen as int),
            decreases occ@.len() - k,
        {
            let p = occ[k];
            let lo0 = if p >= 40 {
                p - 40
            } else {
                0
            };
            let lo = min_usize(lo0, text_len);
            let hi = min_usize(sat_add(sat_add(p, qlen), 40), text_len);
            let ctx = text.substring_char(lo, hi);
            out.push(MatchResult { position: p, text: ctx.to_owned() });
            k = k + 1;
        }
        out
    }

    /// Searches every document whose text this session holds, in load
    /// order, and stores one result per document that contains the query.
    ///
    /// A blank query (empty, or whitespace only) leaves the results
    /// untouched, as submitting an empty search is a no-op.
    pub fn perform_search(&mut self)
        ensures
            is_blank(old(self).search_query@) ==> *final(self) == *old(self),
            !is_blank(old(self).search_query@) ==> {
                let q = old(self).search_query@;
                let cs = old(self).case_sensitive;
                let hits = old(self).pdf_cache@.filter(
                    |e: (String, String)|
                        occurrences(effective_text(cs, e.1@), effective_text(cs, q)).len() > 0,
                );
                &&& final(self).search_results@.len() == hits.len()
                &&& forall|k: int|
                    0 <= k < hits.len() ==> {
                        let rk = #[trigger] final(self).search_results@[k];
                        &&& rk.file_path == hits[k].0
                        &&& rk.file_name@ == file_name_of(hits[k].0@)
                        &&& rk.match_count == occurrences(
                            effective_text(cs, hits[k].1@),
                            effective_text(cs, q),
                        ).len()
                        &&& match_list_spec(rk.match_list@, hits[k].1@, q, cs)
                    }
                &&& final(self).search_query == old(self).search_query
                &&& final(self).case_sensitive == old(self).case_sensitive
                &&& final(self).create_zip == old(self).create_zip
                &&& final(self).pdf_cache == old(self).pdf_cache
                &&& final(self).loaded_pdfs == old(self).loaded_pdfs
                &&& final(self).directory_path == old(self).directory_path
                &&& final(self).is_loading_directory == old(self).is_loading_directory
                &&& final(self).directory_loading_progress == old(self).directory_loading_progress
            },
    {
        if query_is_blank(&self.search_query) {
            return;
        }
        let ghost q = self.search_query@;
        let ghost cs = self.case_sensitive;
        let ghost pred = |e: (String, String)|
            occurrences(effective_text(cs, e.1@), effective_text(cs, q)).len() > 0;
        let mut results: Vec<SearchResult> = Vec::new();
        let mut d: usize = 0;
        while d < self.pdf_cache.len()
            invariant
                !is_blank(q),
                q == self.search_query@,
                cs == self.case_sensitive,
                *self == *old(self),
                d <= self.pdf_cache@.len(),
                pred == (|e: (String, String)|
                    occurrences(effective_text(cs, e.1@), effective_text(cs, q)).len() > 0),
                results@.len() == self.pdf_cache@.take(d as int).filter(pred).len(),
                forall|k: int|
                    0 <= k < results@.len() ==> {
                        let hits = self.pdf_cache@.take(d as int).filter(pred);
                        let rk = #[trigger] results@[k];
                        &&& rk.file_path == hits[k].0
                        &&& rk.file_name@ == file_name_of(hits[k].0@)
                        &&& rk.match_count == occurrences(
                            effective_text(cs, hits[k].1@),
                            effective_text(cs, q),
                        ).len()
                        &&& match_list_spec(rk.match_list@, hits[k].1@, q, cs)
                    },
            decreases self.pdf_cache@.len() - d,
        {
            let ghost taken = self.pdf_cache@.take(d as int);
            let path = self.pdf_cache[d].0.clone();
            let text = self.pdf_cache[d].1.clone();
            let found = self.search_in_text(text.as_str());
            if found.len() > 0 {
                let name = file_name(path.as_str());
                let count = found.len();
                results.push(
                    SearchResult {
                        file_path: path,
                        file_name: name,
                        match_count: count,
                        match_list: found,
                    },
                );
            }
            d = d + 1;
            proof {
                reveal(Seq::filter);
                let elem = self.pdf_cache@[d - 1];
                let ext = self.pdf_cache@.take(d as int);
                assert(ext =~= taken.push(elem));
                assert(ext.drop_last() =~= taken);
                assert(ext.last() == elem);
                assert(ext.filter(pred) == if pred(elem) {
                    taken.filter(pred).push(elem)
                } else {
                    taken.filter(pred)
                });
            }
        }
        proof {
            assert(self.pdf_cache@.take(self.pdf_cache@.len() as int) =~= self.pdf_cache@);
        }
        self.search_results = results;
    }
}

/// Every character of `s` is white space, so trimming `s` would leave
/// nothing.
pub open spec fn is_blank(s: Seq<char>) -> bool {
    forall|i: int| 0 <= i < s.len() ==> is_blank_char(#[trigger] s[i])
}

/// A white-space character: one of the Unicode `White_Space` code points,
/// the set `str::trim` strips.
pub open spec fn is_blank_char(c: char) -> bool {
    let u = c as u32;
    ||| (0x9 <= u && u <= 0xd)
    ||| u == 0x20
    ||| u == 0x85
    ||| u == 0xa0
    ||| u == 0x1680
    ||| (0x2000 <= u && u <= 0x200a)
    ||| u == 0x2028
    ||| u == 0x2029
    ||| u == 0x202f
    ||| u == 0x205f
    ||| u == 0x3000
}

/// Checks whether a query is blank.
fn query_is_blank(s: &String) -> (r: bool)
    ensures
        r == is_blank(s@),
{
    let v = chars_of(s.as_str());
    let mut i: usize = 0;
    while i < v.len()
        invariant
            v@ == s@,
            i <= v@.len(),
            forall|k: int| 0 <= k < i ==> is_blank_char(#[trigger] v@[k]),
        decreases v@.len() - i,
    {
        let u = v[i] as u32;
        let blank = (0x9 <= u && u <= 0xd) || u == 0x20 || u == 0x85 || u == 0xa0 || u == 0x1680
            || (0x2000 <= u && u <= 0x200a) || u == 0x2028 || u == 0x2029 || u == 0x202f || u
            == 0x205f || u == 0x3000;
        if !blank {
            return false;
        }
        i = i + 1;
    }
    true
}

} // verus!
