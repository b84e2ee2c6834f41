//! Keyword co-occurrence analysis over a corpus.
//!
//! Each document is reduced to its per-keyword occurrence counts.  The
//! co-occurrence strength of a keyword pair is the average over all
//! documents of the smaller of the two counts — a document contributes
//! nothing unless both keywords are present — and a document's score is the
//! sum, over the pairs whose strength reaches the threshold, of the pair's
//! strength weighted by the document's own smaller count.  All values are
//! kept as exact fractions over the document count: a strength is
//! `correlations[i][j] / total_documents`, a score is
//! `score_num / total_documents`.

use vstd::prelude::*;

use crate::EngineError;
use crate::search::count_occurrences;
use crate::search::lemma_occurrences_len;
use crate::search::occurrences;
use crate::strutil::chars_of;
use crate::strutil::dec_str;
use crate::strutil::fixed2_str;
use crate::strutil::pad_to;
use crate::strutil::push_dec;
use crate::strutil::push_fixed2;
use crate::strutil::push_pad_dec;
use crate::strutil::push_str_chars;
use crate::strutil::string_from_chars;

verus! {

/// The smaller of two values.
pub open spec fn min2(a: int, b: int) -> int {
    if a <= b {
        a
    } else {
        b
    }
}

/// One document of the corpus: its display name and its per-keyword
/// occurrence counts, aligned with the keyword list of the analysis.
pub struct DocumentCounts {
    pub filename: String,
    pub counts: Vec<u32>,
}

/// What one document contributes to the co-occurrence of keywords `i` and
/// `j`: the smaller of the two counts, so zero unless both are present.
pub open spec fn pair_co(counts: Seq<u32>, i: int, j: int) -> int {
    min2(counts[i] as int, counts[j] as int)
}

/// The co-occurrence sum of keywords `i` and `j` over a corpus; divided by
/// the document count it is the pair's co-occurrence strength.
pub open spec fn corr_sum(docs: Seq<DocumentCounts>, i: int, j: int) -> int
    decreases docs.len(),
{
    if docs.len() == 0 {
        0
    } else {
        corr_sum(docs.drop_last(), i, j) + pair_co(docs.last().counts@, i, j)
    }
}

/// Co-occurrence is symmetric: the strength computed for a pair `(i, j)`
/// equals the strength that would be computed for `(j, i)`, which is why
/// only the upper triangle of the matrix is stored.
pub proof fn lemma_correlation_symmetric(docs: Seq<DocumentCounts>, i: int, j: int)
    ensures
        corr_sum(docs, i, j) == corr_sum(docs, j, i),
    decreases docs.len(),
{
    if docs.len() > 0 {
        lemma_correlation_symmetric(docs.drop_last(), i, j);
    }
}

/// The co-occurrence sum of keywords `i` and `j` over a corpus.
pub fn pair_sum(docs: &Vec<DocumentCounts>, i: usize, j: usize) -> (r: u64)
    requires
        docs@.len() <= 0x80000000,
        forall|d: int|
            0 <= d < docs@.len() ==> i < (#[trigger] docs@[d]).counts@.len() && j
                < docs@[d].counts@.len(),
    ensures
        r == corr_sum(docs@, i as int, j as int),
{
    let mut acc: u64 = 0;
    let mut d: usize = 0;
    while d < docs.len()
        invariant
            docs@.len() <= 0x80000000,
            forall|dd: int|
                0 <= dd < docs@.len() ==> i < (#[trigger] docs@[dd]).counts@.len() && j
                    < docs@[dd].counts@.len(),
            d <= docs@.len(),
            acc == corr_sum(docs@.take(d as int), i as int, j as int),
            acc <= d * 0xffffffff,
        decreases docs@.len() - d,
    {
        let counts = &docs[d].counts;
        let a = counts[i];
        let b = counts[j];
        let m: u64 = if a <= b {
            a as u64
        } else {
            b as u64
        };
        proof {
            assert(docs@.take(d + 1).drop_last() =~= docs@.take(d as int));
            assert(docs@.take(d + 1).last() == docs@[d as int]);
        }
        acc = acc + m;
        d = d + 1;
    }
    proof {
        assert(docs@.take(docs@.len() as int) =~= docs@);
    }
    acc
}

/// A keyword analysis over one corpus snapshot: the keywords, the reduced
/// documents, and the upper-triangular co-occurrence sums.
pub struct KeywordAnalysis {
    pub keywords: Vec<String>,
    pub documents: Vec<DocumentCounts>,
    pub correlations: Vec<Vec<u64>>,
    pub total_documents: usize,
}

impl KeywordAnalysis {
    /// Every document's counts line up with the keyword list, the totals
    /// agree, and the corpus stays within the sizes the arithmetic is
    /// proved for.
    pub open spec fn wf(&self) -> bool {
        &&& forall|d: int|
            0 <= d < self.documents@.len() ==> (#[trigger] self.documents@[d]).counts@.len()
                == self.keywords@.len()
        &&& self.total_documents == self.documents@.len()
        &&& self.documents@.len() <= 0x80000000
        &&& self.keywords@.len() <= 256
    }

    /// The co-occurrence matrix holds the pair sums in its upper triangle
    /// and zeroes elsewhere.
    pub open spec fn correlations_computed(&self) -> bool {
        &&& self.correlations@.len() == self.keywords@.len()
        &&& forall|i: int|
            0 <= i < self.keywords@.len() ==> (#[trigger] self.correlations@[i])@.len()
                == self.keywords@.len()
        &&& forall|i: int, j: int|
            0 <= i < self.keywords@.len() && 0 <= j < self.keywords@.len() ==> (
            #[trigger] self.correlations@[i]@[j]) as int == if i < j {
                corr_sum(self.documents@, i, j)
            } else {
                0
            }
    }

    /// A fresh analysis for a keyword list: no documents yet, a zeroed
    /// matrix.
    pub fn new(keywords: Vec<String>) -> (r: KeywordAnalysis)
        ensures
            r.keywords == keywords,
            r.documents@ == Seq::<DocumentCounts>::empty(),
            r.total_documents == 0,
            r.correlations_computed(),
    {
        let k = keywords.len();
        let zeros = zero_matrix(k);
        let r = KeywordAnalysis {
            keywords,
            documents: Vec::new(),
            correlations: zeros,
            total_documents: 0,
        };
        r
    }

    /// Recomputes the whole co-occurrence matrix from the current corpus:
    /// the matrix is recomputed wholesale on each analysis run, never
    /// updated incrementally.
    pub fn calculate_correlations(&mut self)
        requires
            old(self).wf(),
        ensures
            final(self).wf(),
            final(self).correlations_computed(),
            final(self).keywords == old(self).keywords,
            final(self).documents == old(self).documents,
            final(self).total_documents == old(self).total_documents,
    {
        let k = self.keywords.len();
        let mut matrix: Vec<Vec<u64>> = Vec::new();
        let mut i: usize = 0;
        while i < k
            invariant
                *self == *old(self),
                self.wf(),
                k == self.keywords@.len(),
                i <= k,
                matrix@.len() == i,
                forall|a: int| 0 <= a < i ==> (#[trigger] matrix@[a])@.len() == k,
                forall|a: int, b: int|
                    0 <= a < i && 0 <= b < k ==> (#[trigger] matrix@[a]@[b]) as int == if a < b {
                        corr_sum(self.documents@, a, b)
                    } else {
                        0
                    },
            decreases k - i,
        {
            let mut row: Vec<u64> = Vec::new();
            let mut j: usize = 0;
            while j < k
                invariant
                    *self == *old(self),
                    self.wf(),
                    k == self.keywords@.len(),
                    i < k,
                    j <= k,
                    row@.len() == j,
                    forall|b: int|
                        0 <= b < j ==> (#[trigger] row@[b]) as int == if i < b {
                            corr_sum(self.documents@, i as int, b)
                        } else {
                            0
                        },
                decreases k - j,
            {
                if i < j {
                    let s = pair_sum(&self.documents, i, j);
                    row.push(s);
                } else {
                    row.push(0);
                }
                j = j + 1;
            }
            matrix.push(row);
            i = i + 1;
        }
        self.correlations = matrix;
    }
}

/// A square matrix of zeroes.
fn zero_matrix(k: usize) -> (r: Vec<Vec<u64>>)
    ensures
        r@.len() == k,
        forall|i: int| 0 <= i < k ==> (#[trigger] r@[i])@.len() == k,
        forall|i: int, j: int| 0 <= i < k && 0 <= j < k ==> (#[trigger] r@[i]@[j]) == 0,
{
    let mut r: Vec<Vec<u64>> = Vec::new();
    let mut i: usize = 0;
    while i < k
        invariant
            i <= k,
            r@.len() == i,
            forall|a: int| 0 <= a < i ==> (#[trigger] r@[a])@.len() == k,
            forall|a: int, b: int| 0 <= a < i && 0 <= b < k ==> (#[trigger] r@[a]@[b]) == 0,
        decreases k - i,
    {
        let mut row: Vec<u64> = Vec::new();
        let mut j: usize = 0;
        while j < k
            invariant
                j <= k,
                row@.len() == j,
                forall|b: int| 0 <= b < j ==> (#[trigger] row@[b]) == 0,
            decreases k - j,
        {
            row.push(0);
            j = j + 1;
        }
        r.push(row);
        i = i + 1;
    }
    r
}

/// The pair `(i, j)` clears the threshold: its strength
/// `sum / total` is at least `t_num / t_den`, compared exactly on
/// cross-multiplied integers.
pub open spec fn passes_threshold(sum: int, total: int, t_num: int, t_den: int) -> bool {
    sum * t_den >= t_num * total
}

/// What the pairs `(i, j), (i, j + 1), ...` of row `i` add to a document's
/// score: for each pair that clears the threshold, the pair's sum weighted
/// by the document's smaller count.
pub open spec fn row_score(
    counts: Seq<u32>,
    sums: Seq<Seq<u64>>,
    t_num: int,
    t_den: int,
    total: int,
    i: int,
    j: int,
) -> int
    decreases counts.len() - j,
{
    if j < 0 || j >= counts.len() {
        0
    } else {
        (if passes_threshold(sums[i][j] as int, total, t_num, t_den) {
            (sums[i][j] as int) * pair_co(counts, i, j)
        } else {
            0
        }) + row_score(counts, sums, t_num, t_den, total, i, j + 1)
    }
}

/// A document's score numerator: the sum of the row scores of every
/// keyword row; the score itself is this value over `total`.
pub open spec fn score_rows(
    counts: Seq<u32>,
    sums: Seq<Seq<u64>>,
    t_num: int,
    t_den: int,
    total: int,
    i: int,
) -> int
    decreases counts.len() - i,
{
    if i < 0 || i >= counts.len() {
        0
    } else {
        row_score(counts, sums, t_num, t_den, total, i, i + 1) + score_rows(
            counts,
            sums,
            t_num,
            t_den,
            total,
            i + 1,
        )
    }
}

/// A document's score numerator over the whole matrix.
pub open spec fn doc_score(
    counts: Seq<u32>,
    sums: Seq<Seq<u64>>,
    t_num: int,
    t_den: int,
    total: int,
) -> int {
    score_rows(counts, sums, t_num, t_den, total, 0)
}

proof fn lemma_row_score_bounds(
    counts: Seq<u32>,
    sums: Seq<Seq<u64>>,
    t_num: int,
    t_den: int,
    total: int,
    i: int,
    j: int,
)
    requires
        counts.len() <= 256,
    ensures
        0 <= row_score(counts, sums, t_num, t_den, total, i, j) <= 0x100000000000000000000000000,
    decreases counts.len() - j,
{
    if 0 <= j < counts.len() {
        lemma_row_score_partial_bound(counts, sums, t_num, t_den, total, i, j);
        assert((counts.len() - j) * 0x1000000000000000000000000 <= 0x100000000000000000000000000);
    }
}

proof fn lemma_row_score_partial_bound(
    counts: Seq<u32>,
    sums: Seq<Seq<u64>>,
    t_num: int,
    t_den: int,
    total: int,
    i: int,
    j: int,
)
    requires
        counts.len() <= 256,
        0 <= j < counts.len(),
    ensures
        0 <= row_score(counts, sums, t_num, t_den, total, i, j) <= (counts.len() - j)
            * 0x1000000000000000000000000,
    decreases counts.len() - j,
{
    if j + 1 < counts.len() {
        lemma_row_score_partial_bound(counts, sums, t_num, t_den, total, i, j + 1);
    } else {
        assert(row_score(counts, sums, t_num, t_den, total, i, j + 1) == 0);
    }
    assert((sums[i][j] as int) * pair_co(counts, i, j) < 0x1000000000000000000000000)
        by (nonlinear_arith)
        requires
            0 <= sums[i][j] as int <= 0xffffffffffffffff,
            0 <= pair_co(counts, i, j) <= 0xffffffff,
    ;
    assert((sums[i][j] as int) * pair_co(counts, i, j) >= 0) by (nonlinear_arith)
        requires
            0 <= sums[i][j] as int,
            0 <= pair_co(counts, i, j),
    ;
}

proof fn lemma_score_rows_bounds(
    counts: Seq<u32>,
    sums: Seq<Seq<u64>>,
    t_num: int,
    t_den: int,
    total: int,
    i: int,
)
    requires
        counts.len() <= 256,
    ensures
        0 <= score_rows(counts, sums, t_num, t_den, total, i) <= 0x10000000000000000000000000000,
    decreases counts.len() - i,
{
    if 0 <= i < counts.len() {
        lemma_score_rows_partial_bound(counts, sums, t_num, t_den, total, i);
        assert((counts.len() - i) * 0x100000000000000000000000000 <= 0x10000000000000000000000000000);
    } else {
        assert(score_rows(counts, sums, t_num, t_den, total, i) == 0);
    }
}

proof fn lemma_score_rows_partial_bound(
    counts: Seq<u32>,
    sums: Seq<Seq<u64>>,
    t_num: int,
    t_den: int,
    total: int,
    i: int,
)
    requires
        counts.len() <= 256,
        0 <= i < counts.len(),
    ensures
        0 <= score_rows(counts, sums, t_num, t_den, total, i) <= (counts.len() - i) * 0x100000000000000000000000000,
    decreases counts.len() - i,
{
    if i + 1 < counts.len() {
        lemma_score_rows_partial_bound(counts, sums, t_num, t_den, total, i + 1);
    } else {
        assert(score_rows(counts, sums, t_num, t_den, total, i + 1) == 0);
    }
    lemma_row_score_bounds(counts, sums, t_num, t_den, total, i, i + 1);
    assert(score_rows(counts, sums, t_num, t_den, total, i) == row_score(
        counts,
        sums,
        t_num,
        t_den,
        total,
        i,
        i + 1,
    ) + score_rows(counts, sums, t_num, t_den, total, i + 1));
}

/// Computes one document's score numerator.
pub fn doc_score_exec(
    counts: &Vec<u32>,
    sums: &Vec<Vec<u64>>,
    t_num: u64,
    t_den: u64,
    total: usize,
) -> (r: u128)
    requires
        counts@.len() <= 256,
        sums@.len() >= counts@.len(),
        forall|a: int| 0 <= a < sums@.len() ==> (#[trigger] sums@[a])@.len() >= counts@.len(),
    ensures
        r == doc_score(
            counts@,
            sums@.map_values(|row: Vec<u64>| row@),
            t_num as int,
            t_den as int,
            total as int,
        ),
{
    let ghost ms = sums@.map_values(|row: Vec<u64>| row@);
    let ghost tn = t_num as int;
    let ghost td = t_den as int;
    let ghost tt = total as int;
    let k = counts.len();
    let mut acc: u128 = 0;
    let mut i: usize = 0;
    proof {
        lemma_score_rows_bounds(counts@, ms, tn, td, tt, 0);
    }
    while i < k
        invariant
            counts@.len() <= 256,
            sums@.len() >= counts@.len(),
            forall|a: int| 0 <= a < sums@.len() ==> (#[trigger] sums@[a])@.len() >= counts@.len(),
            ms == sums@.map_values(|row: Vec<u64>| row@),
            tn == t_num as int,
            td == t_den as int,
            tt == total as int,
            k == counts@.len(),
            i <= k,
            doc_score(counts@, ms, tn, td, tt) == acc + score_rows(counts@, ms, tn, td, tt, i as int),
            doc_score(counts@, ms, tn, td, tt) <= 0x10000000000000000000000000000,
        decreases k - i,
    {
        let mut j: usize = i + 1;
        while j < k
            invariant
                counts@.len() <= 256,
                sums@.len() >= counts@.len(),
                forall|a: int|
                    0 <= a < sums@.len() ==> (#[trigger] sums@[a])@.len() >= counts@.len(),
                ms == sums@.map_values(|row: Vec<u64>| row@),
                tn == t_num as int,
                td == t_den as int,
                tt == total as int,
                k == counts@.len(),
                i < k,
                i < j <= k,
                doc_score(counts@, ms, tn, td, tt) == acc + row_score(
                    counts@,
                    ms,
                    tn,
                    td,
                    tt,
                    i as int,
                    j as int,
                ) + score_rows(counts@, ms, tn, td, tt, i + 1),
                doc_score(counts@, ms, tn, td, tt) <= 0x10000000000000000000000000000,
            decreases k - j,
        {
            proof {
                lemma_row_score_bounds(counts@, ms, tn, td, tt, i as int, j + 1);
                lemma_score_rows_bounds(counts@, ms, tn, td, tt, i + 1);
            }
            let s = sums[i][j];
            let a = counts[i];
            let b = counts[j];
            let m: u128 = if a <= b {
                a as u128
            } else {
                b as u128
            };
            proof {
                assert(ms[i as int] == sums@[i as int]@);
                assert(s == ms[i as int][j as int]);
                assert(m == pair_co(counts@, i as int, j as int));
            }
            proof {
                assert((s as int) * (t_den as int) < 0x100000000000000000000000000000000)
                    by (nonlinear_arith)
                    requires
                        0 <= s as int <= 0xffffffffffffffff,
                        0 <= t_den as int <= 0xffffffffffffffff,
                ;
                assert((t_num as int) * (total as int) < 0x100000000000000000000000000000000)
                    by (nonlinear_arith)
                    requires
                        0 <= t_num as int <= 0xffffffffffffffff,
                        0 <= total as int <= 0xffffffffffffffff,
                ;
            }
            if (s as u128) * (t_den as u128) >= (t_num as u128) * (total as u128) {
                proof {
                    assert((s as int) * pair_co(counts@, i as int, j as int)
                        < 0x10000000000000000000000000000) by (nonlinear_arith)
                        requires
                            0 <= s as int <= 0xffffffffffffffff,
                            0 <= pair_co(counts@, i as int, j as int) <= 0xffffffff,
                    ;
                    assert((s as int) * pair_co(counts@, i as int, j as int) >= 0)
                        by (nonlinear_arith)
                        requires
                            0 <= s as int,
                            0 <= pair_co(counts@, i as int, j as int),
                    ;
                    assert((s as u128) * m == (s as int) * pair_co(counts@, i as int, j as int));
                }
                acc = acc + (s as u128) * m;
            }
            j = j + 1;
        }
        i = i + 1;
    }
    proof {
        assert(score_rows(counts@, ms, tn, td, tt, k as int) == 0);
    }
    acc
}

/// One entry of the ranked document list: the document's name and its
/// score numerator over the analysis's document count.
pub struct RankedDoc {
    pub filename: String,
    pub score_num: u128,
}

/// Inserts a document into a ranked list: it goes in front of the first
/// entry with a strictly smaller score, so equal scores keep their
/// insertion order.
pub open spec fn insert_ranked(s: Seq<RankedDoc>, x: RankedDoc) -> Seq<RankedDoc>
    decreases s.len(),
{
    if s.len() == 0 {
        seq![x]
    } else if x.score_num > s[0].score_num {
        seq![x].add(s)
    } else {
        seq![s[0]].add(insert_ranked(s.drop_first(), x))
    }
}

/// The ranked list of a corpus: every document, ordered by descending
/// score with ties kept in corpus order.
pub open spec fn ranked_of(
    docs: Seq<DocumentCounts>,
    sums: Seq<Seq<u64>>,
    t_num: int,
    t_den: int,
    total: int,
) -> Seq<RankedDoc>
    decreases docs.len(),
{
    if docs.len() == 0 {
        Seq::empty()
    } else {
        insert_ranked(
            ranked_of(docs.drop_last(), sums, t_num, t_den, total),
            RankedDoc {
                filename: docs.last().filename,
                score_num: doc_score(docs.last().counts@, sums, t_num, t_den, total) as u128,
            },
        )
    }
}

/// The list is ordered by score, best first.
pub open spec fn sorted_desc(s: Seq<RankedDoc>) -> bool {
    forall|a: int, b: int|
        0 <= a < b < s.len() ==> (#[trigger] s[a]).score_num >= (#[trigger] s[b]).score_num
}

proof fn lemma_insert_elements(s: Seq<RankedDoc>, x: RankedDoc)
    ensures
        insert_ranked(s, x).len() == s.len() + 1,
        forall|j: int|
            0 <= j < insert_ranked(s, x).len() ==> (#[trigger] insert_ranked(s, x)[j]) == x || (
            exists|q: int| 0 <= q < s.len() && s[q] == insert_ranked(s, x)[j]),
    decreases s.len(),
{
    let r = insert_ranked(s, x);
    if s.len() == 0 {
        assert(r[0] == x);
    } else if x.score_num > s[0].score_num {
        assert forall|j: int| 0 <= j < r.len() implies (#[trigger] r[j]) == x || (exists|q: int|
            0 <= q < s.len() && s[q] == r[j]) by {
            if j > 0 {
                assert(s[j - 1] == r[j]);
            }
        }
    } else {
        lemma_insert_elements(s.drop_first(), x);
        let tail = insert_ranked(s.drop_first(), x);
        assert forall|j: int| 0 <= j < r.len() implies (#[trigger] r[j]) == x || (exists|q: int|
            0 <= q < s.len() && s[q] == r[j]) by {
            if j == 0 {
                assert(s[0] == r[0]);
            } else {
                assert(r[j] == tail[j - 1]);
                if tail[j - 1] == x {
                } else {
                    let q = choose|q: int|
                        0 <= q < s.drop_first().len() && s.drop_first()[q] == tail[j - 1];
                    assert(s[q + 1] == r[j]);
                }
            }
        }
    }
}

proof fn lemma_insert_preserves_sorted(s: Seq<RankedDoc>, x: RankedDoc)
    requires
        sorted_desc(s),
    ensures
        sorted_desc(insert_ranked(s, x)),
    decreases s.len(),
{
    let r = insert_ranked(s, x);
    if s.len() == 0 {
    } else if x.score_num > s[0].score_num {
        assert forall|a: int, b: int|
            0 <= a < b < r.len() implies (#[trigger] r[a]).score_num >= (
        #[trigger] r[b]).score_num by {
            assert(r[b] == s[b - 1]);
            if a == 0 {
                assert(s[0].score_num >= s[b - 1].score_num);
            } else {
                assert(r[a] == s[a - 1]);
            }
        }
    } else {
        assert(sorted_desc(s.drop_first()));
        lemma_insert_preserves_sorted(s.drop_first(), x);
        lemma_insert_elements(s.drop_first(), x);
        let tail = insert_ranked(s.drop_first(), x);
        assert forall|a: int, b: int|
            0 <= a < b < r.len() implies (#[trigger] r[a]).score_num >= (
        #[trigger] r[b]).score_num by {
            assert(r[b] == tail[b - 1]);
            if a == 0 {
                assert(r[0] == s[0]);
                if tail[b - 1] == x {
                    assert(s[0].score_num >= x.score_num);
                } else {
                    let q = choose|q: int|
                        0 <= q < s.drop_first().len() && s.drop_first()[q] == tail[b - 1];
                    assert(s[0].score_num >= s[q + 1].score_num);
                }
            } else {
                assert(r[a] == tail[a - 1]);
            }
        }
    }
}

/// The ranked list is sorted: scores never increase from one entry to the
/// next, so the zero-scored documents that the report drops form a suffix.
pub proof fn lemma_ranking_sorted(
    docs: Seq<DocumentCounts>,
    sums: Seq<Seq<u64>>,
    t_num: int,
    t_den: int,
    total: int,
)
    ensures
        sorted_desc(ranked_of(docs, sums, t_num, t_den, total)),
    decreases docs.len(),
{
    if docs.len() > 0 {
        lemma_ranking_sorted(docs.drop_last(), sums, t_num, t_den, total);
        lemma_insert_preserves_sorted(
            ranked_of(docs.drop_last(), sums, t_num, t_den, total),
            RankedDoc {
                filename: docs.last().filename,
                score_num: doc_score(docs.last().counts@, sums, t_num, t_den, total) as u128,
            },
        );
    }
}

proof fn lemma_insert_at(s: Seq<RankedDoc>, x: RankedDoc, p: int)
    requires
        0 <= p <= s.len(),
        forall|q: int| 0 <= q < p ==> !(x.score_num > (#[trigger] s[q]).score_num),
        p < s.len() ==> x.score_num > s[p].score_num,
    ensures
        insert_ranked(s, x) == s.subrange(0, p).add(seq![x]).add(s.subrange(p, s.len() as int)),
    decreases p,
{
    if p == 0 {
        if s.len() == 0 {
            assert(insert_ranked(s, x) =~= s.subrange(0, 0).add(seq![x]).add(
                s.subrange(0, s.len() as int),
            ));
        } else {
            assert(insert_ranked(s, x) =~= s.subrange(0, 0).add(seq![x]).add(
                s.subrange(0, s.len() as int),
            ));
        }
    } else {
        assert(!(x.score_num > s[0].score_num));
        assert(forall|q: int| 0 <= q < p - 1 ==> !(x.score_num > (#[trigger] s.drop_first()[q]).score_num));
        lemma_insert_at(s.drop_first(), x, p - 1);
        assert(insert_ranked(s, x) =~= s.subrange(0, p).add(seq![x]).add(
            s.subrange(p, s.len() as int),
        ));
    }
}

impl KeywordAnalysis {
    /// Ranks the corpus: every document sorted by descending score, equal
    /// scores in corpus order.
    pub fn rank_documents(&self, t_num: u64, t_den: u64) -> (r: Vec<RankedDoc>)
        requires
            self.wf(),
            self.correlations_computed(),
        ensures
            r@ == ranked_of(
                self.documents@,
                self.correlations@.map_values(|row: Vec<u64>| row@),
                t_num as int,
                t_den as int,
                self.total_documents as int,
            ),
            r@.len() == self.documents@.len(),
            forall|q: int|
                0 <= q < r@.len() ==> (#[trigger] r@[q]).score_num
                    <= 0x10000000000000000000000000000,
    {
        let ghost sums = self.correlations@.map_values(|row: Vec<u64>| row@);
        let mut out: Vec<RankedDoc> = Vec::new();
        let mut d: usize = 0;
        while d < self.documents.len()
            invariant
                self.wf(),
                self.correlations_computed(),
                sums == self.correlations@.map_values(|row: Vec<u64>| row@),
                d <= self.documents@.len(),
                out@ == ranked_of(
                    self.documents@.take(d as int),
                    sums,
                    t_num as int,
                    t_den as int,
                    self.total_documents as int,
                ),
                out@.len() == d,
                forall|q: int|
                    0 <= q < out@.len() ==> (#[trigger] out@[q]).score_num
                        <= 0x10000000000000000000000000000,
            decreases self.documents@.len() - d,
        {
            let doc = &self.documents[d];
            let score = doc_score_exec(
                &doc.counts,
                &self.correlations,
                t_num,
                t_den,
                self.total_documents,
            );
            proof {
                lemma_score_rows_bounds(
                    doc.counts@,
                    sums,
                    t_num as int,
                    t_den as int,
                    self.total_documents as int,
                    0,
                );
            }
            let entry = RankedDoc { filename: doc.filename.clone(), score_num: score };
            let ghost prev = out@;
            let mut p: usize = 0;
            while p < out.len() && out[p].score_num >= score
                invariant
                    p <= out@.len(),
                    out@ == prev,
                    entry.score_num == score,
                    forall|q: int| 0 <= q < p ==> !(entry.score_num > (#[trigger] out@[q]).score_num),
                decreases out@.len() - p,
            {
                p = p + 1;
            }
            proof {
                lemma_insert_at(prev, entry, p as int);
            }
            out.insert(p, entry);
            d = d + 1;
            proof {
                assert(self.documents@.take(d as int).drop_last() =~= self.documents@.take(d - 1));
                assert(self.documents@.take(d as int).last() == self.documents@[d - 1]);
                assert(out@ =~= prev.subrange(0, p as int).add(seq![entry]).add(
                    prev.subrange(p as int, prev.len() as int),
                ));
            }
        }
        proof {
            assert(self.documents@.take(self.documents@.len() as int) =~= self.documents@);
        }
        out
    }
}

/// Reduces one document's text to its per-keyword occurrence counts: entry
/// `i` is the number of non-overlapping occurrences of keyword `i`,
/// compared character for character.  An empty keyword counts zero
/// occurrences: the matcher treats the empty query as matching nothing,
/// where counting one match per character boundary would be meaningless.
pub fn extract_keyword_counts(text: &str, keywords: &Vec<String>) -> (r: Vec<u32>)
    requires
        text@.len() <= 0xffffffff,
    ensures
        r@.len() == keywords@.len(),
        forall|i: int|
            0 <= i < keywords@.len() ==> (#[trigger] r@[i]) as int == occurrences(
                text@,
                keywords@[i]@,
            ).len(),
{
    let tc = chars_of(text);
    let mut r: Vec<u32> = Vec::new();
    let mut i: usize = 0;
    while i < keywords.len()
        invariant
            tc@ == text@,
            text@.len() <= 0xffffffff,
            i <= keywords@.len(),
            r@.len() == i,
            forall|a: int|
                0 <= a < i ==> (#[trigger] r@[a]) as int == occurrences(text@, keywords@[a]@).len(),
        decreases keywords@.len() - i,
    {
        let qc = chars_of(keywords[i].as_str());
        let n = count_occurrences(&tc, &qc);
        proof {
            lemma_occurrences_len(tc@, qc@, 0);
        }
        r.push(n as u32);
        i = i + 1;
    }
    r
}

/// The denominator the report divides by: the document count, or one for
/// an empty corpus, whose sums are all zero anyway.
pub open spec fn report_den(total: int) -> int {
    if total == 0 {
        1
    } else {
        total
    }
}

/// One cell of the textual matrix: the pair's strength to two decimals
/// (read from the upper triangle for either order) followed by a space, or
/// a dash marker on the diagonal.
pub open spec fn matrix_cell(sums: Seq<Seq<u64>>, den: int, i: int, j: int) -> Seq<char> {
    if i == j {
        "---- "@
    } else if i < j {
        fixed2_str(sums[i][j] as int, den) + " "@
    } else {
        fixed2_str(sums[j][i] as int, den) + " "@
    }
}

/// The first `j` cells of matrix row `i`.
pub open spec fn row_cells(sums: Seq<Seq<u64>>, den: int, i: int, j: int) -> Seq<char>
    decreases j,
{
    if j <= 0 {
        Seq::empty()
    } else {
        row_cells(sums, den, i, j - 1) + matrix_cell(sums, den, i, j - 1)
    }
}

/// One full line of the textual matrix: the row index padded to three
/// columns, a space, and the row's `k` cells.
pub open spec fn row_line(sums: Seq<Seq<u64>>, den: int, k: int, i: int) -> Seq<char> {
    pad_to(dec_str(i as nat), 3) + " "@ + row_cells(sums, den, i, k) + "\n"@
}

/// The first `i` lines of the textual matrix.
pub open spec fn matrix_rows(sums: Seq<Seq<u64>>, den: int, k: int, i: int) -> Seq<char>
    decreases i,
{
    if i <= 0 {
        Seq::empty()
    } else {
        matrix_rows(sums, den, k, i - 1) + row_line(sums, den, k, i - 1)
    }
}

/// The first `i` header cells: each column index padded to four columns.
pub open spec fn header_cells(k: int) -> Seq<char>
    decreases k,
{
    if k <= 0 {
        Seq::empty()
    } else {
        header_cells(k - 1) + pad_to(dec_str((k - 1) as nat), 4)
    }
}

/// The first `i` lines of the keyword index mapping.
pub open spec fn mapping_lines(keywords: Seq<String>, i: int) -> Seq<char>
    decreases i,
{
    if i <= 0 {
        Seq::empty()
    } else {
        mapping_lines(keywords, i - 1) + dec_str((i - 1) as nat) + ": "@ + keywords[i - 1]@ + "\n"@
    }
}

/// The whole textual correlation matrix: a header of column indices,
/// `k` index-labelled rows of two-decimal strengths, and the mapping from
/// indices back to keywords.
pub open spec fn matrix_str(keywords: Seq<String>, sums: Seq<Seq<u64>>, den: int) -> Seq<char> {
    "Keyword Correlation Matrix:\n\n"@ + "    "@ + header_cells(keywords.len() as int) + "\n"@
        + matrix_rows(sums, den, keywords.len() as int, keywords.len() as int)
        + "\nKeyword Index Mapping:\n"@ + mapping_lines(keywords, keywords.len() as int)
}

impl KeywordAnalysis {
    /// Renders the co-occurrence matrix as text, with two-decimal
    /// strengths, index-labelled rows and columns, and the keyword index
    /// mapping below.
    pub fn generate_correlation_matrix(&self) -> (r: String)
        requires
            self.wf(),
            self.correlations_computed(),
        ensures
            r@ == matrix_str(
                self.keywords@,
                self.correlations@.map_values(|row: Vec<u64>| row@),
                report_den(self.total_documents as int),
            ),
    {
        let ghost sums = self.correlations@.map_values(|row: Vec<u64>| row@);
        let k = self.keywords.len();
        let den: usize = if self.total_documents == 0 {
            1
        } else {
            self.total_documents
        };
        let mut out: Vec<char> = Vec::new();
        push_str_chars(&mut out, "Keyword Correlation Matrix:\n\n");
        push_str_chars(&mut out, "    ");
        let ghost pre_header = out@;
        let mut i: usize = 0;
        while i < k
            invariant
                i <= k,
                out@ == pre_header + header_cells(i as int),
            decreases k - i,
        {
            push_pad_dec(&mut out, i as u128, 4);
            i = i + 1;
        }
        push_str_chars(&mut out, "\n");
        let ghost pre_rows = out@;
        i = 0;
        while i < k
            invariant
                self.wf(),
                self.correlations_computed(),
                sums == self.correlations@.map_values(|row: Vec<u64>| row@),
                k == self.keywords@.len(),
                den == report_den(self.total_documents as int),
                i <= k,
                out@ == pre_rows + matrix_rows(sums, den as int, k as int, i as int),
            decreases k - i,
        {
            let ghost pre_line = out@;
            push_pad_dec(&mut out, i as u128, 3);
            push_str_chars(&mut out, " ");
            proof {
                assert(out@ =~= pre_line + pad_to(dec_str(i as nat), 3) + " "@);
            }
            let ghost pre_cells = out@;
            let mut j: usize = 0;
            while j < k
                invariant
                    self.wf(),
                    self.correlations_computed(),
                    sums == self.correlations@.map_values(|row: Vec<u64>| row@),
                    k == self.keywords@.len(),
                    den == report_den(self.total_documents as int),
                    i < k,
                    j <= k,
                    out@ == pre_cells + row_cells(sums, den as int, i as int, j as int),
                decreases k - j,
            {
                if i == j {
                    push_str_chars(&mut out, "---- ");
                } else if i < j {
                    let s = self.correlations[i][j];
                    proof {
                        assert(sums[i as int] == self.correlations@[i as int]@);
                    }
                    push_fixed2(&mut out, s as u128, den as u128);
                    push_str_chars(&mut out, " ");
                    proof {
                        assert(out@ =~= pre_cells + row_cells(sums, den as int, i as int, j as int)
                            + fixed2_str(s as int, den as int) + " "@);
                    }
                } else {
                    let s = self.correlations[j][i];
                    proof {
                        assert(sums[j as int] == self.correlations@[j as int]@);
                    }
                    push_fixed2(&mut out, s as u128, den as u128);
                    push_str_chars(&mut out, " ");
                    proof {
                        assert(out@ =~= pre_cells + row_cells(sums, den as int, i as int, j as int)
                            + fixed2_str(s as int, den as int) + " "@);
                    }
                }
                j = j + 1;
                proof {
                    assert(pre_cells + row_cells(sums, den as int, i as int, j - 1) + matrix_cell(
                        sums,
                        den as int,
                        i as int,
                        j - 1,
                    ) =~= pre_cells + row_cells(sums, den as int, i as int, j as int));
                }
            }
            push_str_chars(&mut out, "\n");
            i = i + 1;
            proof {
                assert(out@ =~= pre_rows + matrix_rows(sums, den as int, k as int, i as int));
            }
        }
        push_str_chars(&mut out, "\nKeyword Index Mapping:\n");
        let ghost pre_map = out@;
        i = 0;
        while i < k
            invariant
                self.wf(),
                k == self.keywords@.len(),
                i <= k,
                out@ == pre_map + mapping_lines(self.keywords@, i as int),
            decreases k - i,
        {
            push_dec(&mut out, i as u128);
            push_str_chars(&mut out, ": ");
            push_str_chars(&mut out, self.keywords[i].as_str());
            push_str_chars(&mut out, "\n");
            i = i + 1;
            proof {
                assert(out@ =~= pre_map + mapping_lines(self.keywords@, i as int));
            }
        }
        proof {
            assert(out@ =~= matrix_str(
                self.keywords@,
                sums,
                report_den(self.total_documents as int),
            ));
        }
        string_from_chars(&out)
    }
}

/// The first `i` keywords joined with a comma and a space.
pub open spec fn joined_keywords(keywords: Seq<String>, i: int) -> Seq<char>
    decreases i,
{
    if i <= 0 {
        Seq::empty()
    } else if i == 1 {
        keywords[0]@
    } else {
        joined_keywords(keywords, i - 1) + ", "@ + keywords[i - 1]@
    }
}

/// The first `i` lines of the ranked document list: `"{rank}. {filename}
/// (score: {value})"`, one line per document with a positive score among
/// the twenty best.
pub open spec fn ranked_lines(ranked: Seq<RankedDoc>, den: int, i: int) -> Seq<char>
    decreases i,
{
    if i <= 0 {
        Seq::empty()
    } else {
        ranked_lines(ranked, den, i - 1) + (if ranked[i - 1].score_num > 0 {
            dec_str(i as nat) + ". "@ + ranked[i - 1].filename@ + " (score: "@ + fixed2_str(
                ranked[i - 1].score_num as int,
                den,
            ) + ")\n"@
        } else {
            Seq::empty()
        })
    }
}

/// How many ranked entries the report shows: the twenty best.
pub open spec fn report_take(n: int) -> int {
    if n <= 20 {
        n
    } else {
        20
    }
}

/// The whole analysis report: the keywords, the corpus size, the
/// threshold, the textual correlation matrix, and the ranked document
/// list.
pub open spec fn report_str(
    keywords: Seq<String>,
    sums: Seq<Seq<u64>>,
    ranked: Seq<RankedDoc>,
    total: int,
    t_num: int,
    t_den: int,
) -> Seq<char> {
    "PDFScan Statistical Analysis Report\n================================\n\n"@ + "Keywords: "@
        + joined_keywords(keywords, keywords.len() as int) + "\n"@ + "Total documents analyzed: "@
        + dec_str(total as nat) + "\n"@ + "Correlation threshold: "@ + fixed2_str(t_num, t_den)
        + "\n\n"@ + matrix_str(keywords, sums, report_den(total))
        + "\n\nRanked Documents by Keyword Correlation:\n"@
        + "==========================================\n"@ + ranked_lines(
        ranked,
        report_den(total),
        report_take(ranked.len() as int),
    )
}

/// Renders the full analysis report for an analysis and its ranking.
pub fn build_report(analysis: &KeywordAnalysis, ranked: &Vec<RankedDoc>, t_num: u64, t_den: u64) -> (r:
    String)
    requires
        analysis.wf(),
        analysis.correlations_computed(),
        t_den > 0,
        forall|q: int|
            0 <= q < ranked@.len() ==> (#[trigger] ranked@[q]).score_num
                <= 0x10000000000000000000000000000,
    ensures
        r@ == report_str(
            analysis.keywords@,
            analysis.correlations@.map_values(|row: Vec<u64>| row@),
            ranked@,
            analysis.total_documents as int,
            t_num as int,
            t_den as int,
        ),
{
    let ghost sums = analysis.correlations@.map_values(|row: Vec<u64>| row@);
    let den: usize = if analysis.total_documents == 0 {
        1
    } else {
        analysis.total_documents
    };
    let mut out: Vec<char> = Vec::new();
    push_str_chars(&mut out, "PDFScan Statistical Analysis Report\n================================\n\n");
    push_str_chars(&mut out, "Keywords: ");
    let ghost pre_kw = out@;
    let k = analysis.keywords.len();
    let mut i: usize = 0;
    while i < k
        invariant
            k == analysis.keywords@.len(),
            i <= k,
            out@ == pre_kw + joined_keywords(analysis.keywords@, i as int),
        decreases k - i,
    {
        if i > 0 {
            push_str_chars(&mut out, ", ");
        }
        push_str_chars(&mut out, analysis.keywords[i].as_str());
        i = i + 1;
        proof {
            assert(out@ =~= pre_kw + joined_keywords(analysis.keywords@, i as int));
        }
    }
    push_str_chars(&mut out, "\n");
    push_str_chars(&mut out, "Total documents analyzed: ");
    push_dec(&mut out, analysis.total_documents as u128);
    push_str_chars(&mut out, "\n");
    push_str_chars(&mut out, "Correlation threshold: ");
    push_fixed2(&mut out, t_num as u128, t_den as u128);
    push_str_chars(&mut out, "\n\n");
    let matrix = analysis.generate_correlation_matrix();
    push_str_chars(&mut out, matrix.as_str());
    push_str_chars(&mut out, "\n\nRanked Documents by Keyword Correlation:\n");
    push_str_chars(&mut out, "==========================================\n");
    let ghost pre_ranked = out@;
    let shown: usize = if ranked.len() <= 20 {
        ranked.len()
    } else {
        20
    };
    i = 0;
    while i < shown
        invariant
            shown <= ranked@.len(),
            den == report_den(analysis.total_documents as int),
            t_den > 0,
            forall|q: int|
                0 <= q < ranked@.len() ==> (#[trigger] ranked@[q]).score_num
                    <= 0x10000000000000000000000000000,
            i <= shown,
            out@ == pre_ranked + ranked_lines(ranked@, den as int, i as int),
        decreases shown - i,
    {
        let entry = &ranked[i];
        if entry.score_num > 0 {
            push_dec(&mut out, (i as u128) + 1);
            push_str_chars(&mut out, ". ");
            push_str_chars(&mut out, entry.filename.as_str());
            push_str_chars(&mut out, " (score: ");
            push_fixed2(&mut out, entry.score_num, den as u128);
            push_str_chars(&mut out, ")\n");
        }
        i = i + 1;
        proof {
            assert(out@ =~= pre_ranked + ranked_lines(ranked@, den as int, i as int));
        }
    }
    proof {
        assert(out@ =~= report_str(
            analysis.keywords@,
            sums,
            ranked@,
            analysis.total_documents as int,
            t_num as int,
            t_den as int,
        ));
    }
    string_from_chars(&out)
}

/// Runs a whole analysis: computes the co-occurrence matrix over the given
/// corpus and ranks the documents against the threshold `t_num / t_den`.
/// An empty keyword list is an invalid configuration and is rejected
/// before any work begins.
pub fn analyze(keywords: Vec<String>, documents: Vec<DocumentCounts>, t_num: u64, t_den: u64) -> (r:
    Result<(KeywordAnalysis, Vec<RankedDoc>), EngineError>)
    requires
        forall|d: int|
            0 <= d < documents@.len() ==> (#[trigger] documents@[d]).counts@.len()
                == keywords@.len(),
        documents@.len() <= 0x80000000,
        keywords@.len() <= 256,
    ensures
        match r {
            Result::Ok((a, ranked)) => {
                &&& keywords@.len() > 0
                &&& a.keywords == keywords
                &&& a.documents == documents
                &&& a.total_documents == documents@.len()
                &&& a.wf()
                &&& a.correlations_computed()
                &&& ranked@ == ranked_of(
                    documents@,
                    a.correlations@.map_values(|row: Vec<u64>| row@),
                    t_num as int,
                    t_den as int,
                    documents@.len() as int,
                )
                &&& forall|q: int|
                    0 <= q < ranked@.len() ==> (#[trigger] ranked@[q]).score_num
                        <= 0x10000000000000000000000000000
            },
            Result::Err(e) => keywords@.len() == 0 && e == EngineError::InvalidConfiguration,
        },
{
    if keywords.len() == 0 {
        return Err(EngineError::InvalidConfiguration);
    }
    let mut analysis = KeywordAnalysis::new(keywords);
    let total = documents.len();
    analysis.documents = documents;
    analysis.total_documents = total;
    analysis.calculate_correlations();
    let ranked = analysis.rank_documents(t_num, t_den);
    Ok((analysis, ranked))
}

} // verus!
