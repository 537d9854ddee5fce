//! The search path: normalize the query once, walk the rows in insertion
//! order, keep the best score that strictly exceeds the threshold.
//!
//! The strict-greater update rule means the earliest-inserted row wins
//! ties, and the same rule is preserved by the chunked reduction used by
//! the parallel variant: on equal scores the reducer keeps the lower
//! index. The predicates below pin the selected row down exactly, so the
//! sequential scan, the naive baseline and the chunked variant are each
//! proved against the same selection contract.

use vstd::prelude::*;
use crate::ieee::{gt_bits, is_nan_bits, key_bits, gt32, MINUS_INF_BITS, PLUS_INF_BITS};
use crate::ieee::lemma_nothing_above_plus_inf;
use crate::kernel::{dot_bits, dot_seq_bits, normalize_bits, normalize_vec};
use crate::kernel::{dot_product_unrolled, dot_product_simple};
use crate::store::{Abkve, SearchResult};

verus! {

/// Rows handed to one worker of the chunked scan.
pub const PARALLEL_CHUNK_ROWS: usize = 1024;

/// The score of every row against the normalized query `qn`, in the
/// accumulation order of the unrolled kernel.
pub open spec fn unrolled_scores(s: &Abkve, qn: Seq<u32>) -> Seq<u32> {
    Seq::new(s.spec_len(), |i: int| dot_bits(qn, s.row(i)))
}

/// The score of every row against the normalized query `qn`, in plain
/// left-to-right accumulation order (the naive baseline).
pub open spec fn simple_scores(s: &Abkve, qn: Seq<u32>) -> Seq<u32> {
    Seq::new(s.spec_len(), |i: int| dot_seq_bits(qn, s.row(i)))
}

/// No score is strictly greater than `tau`.
pub open spec fn no_hit(scores: Seq<u32>, tau: u32) -> bool {
    forall|j: int| 0 <= j < scores.len() ==> !gt_bits(#[trigger] scores[j], tau)
}

/// Row `i` is the one the strict-greater scan selects: its score
/// strictly exceeds `tau`, no score strictly exceeds it, and every
/// earlier score is NaN or strictly below it.
pub open spec fn hit_at(scores: Seq<u32>, tau: u32, i: int) -> bool {
    &&& 0 <= i < scores.len()
    &&& gt_bits(scores[i], tau)
    &&& (forall|j: int| 0 <= j < scores.len() ==> !gt_bits(#[trigger] scores[j], scores[i]))
    &&& (forall|j: int|
        0 <= j < i ==> is_nan_bits(#[trigger] scores[j]) || gt_bits(scores[i], scores[j]))
}

/// The full search contract over a score sequence: absent exactly when
/// no score strictly exceeds `tau`, otherwise the id and score of the
/// selected row.
pub open spec fn selection_ok(scores: Seq<u32>, ids: Seq<u64>, tau: u32, r: SearchResult) -> bool {
    match r {
        None => no_hit(scores, tau),
        Some(p) => exists|i: int|
            #[trigger] hit_at(scores, tau, i) && p.0 == ids[i] && p.1 == scores[i],
    }
}

impl Abkve {
    /// Sequential search with the hand-unrolled kernel: the row whose
    /// cosine score against the normalized query is maximal and strictly
    /// greater than `threshold`, earliest row winning ties; absent when
    /// no row qualifies. A query of the wrong length is a caller
    /// contract violation and is excluded here; the unverified shell
    /// checks it and aborts as the reference behaviour demands.
    pub fn search(&self, query: &[u32], threshold: u32) -> (r: SearchResult)
        requires
            self.wf(),
            query@.len() == self.dim,
        ensures
            selection_ok(unrolled_scores(self, normalize_bits(query@)), self.ids@, threshold, r),
    {
        let ghost scores = unrolled_scores(self, normalize_bits(query@));
        let n: usize = self.ids.len();
        if n == 0 {
            return None;
        }
        let norm_query: Vec<u32> = normalize_vec(query);

        let mut best: u32 = threshold;
        let mut best_idx: Option<usize> = None;
        let mut i: usize = 0;
        while i < n
            invariant
                i <= n,
                n == self.spec_len(),
                self.wf(),
                query@.len() == self.dim,
                norm_query@ == normalize_bits(query@),
                norm_query@.len() == self.dim,
                scores == unrolled_scores(self, normalize_bits(query@)),
                (match best_idx {
                    None => best == threshold && (forall|j: int|
                        0 <= j < i ==> !gt_bits(#[trigger] scores[j], threshold)),
                    Some(k) => {
                        &&& (k as int) < i
                        &&& best == scores[k as int]
                        &&& gt_bits(scores[k as int], threshold)
                        &&& (forall|j: int|
                            0 <= j < i ==> !gt_bits(#[trigger] scores[j], scores[k as int]))
                        &&& (forall|j: int|
                            0 <= j < k as int ==> is_nan_bits(#[trigger] scores[j]) || gt_bits(
                                scores[k as int],
                                scores[j],
                            ))
                    },
                }),
            decreases n - i,
        {
            let row = self.row_slice(i);
            let sc: u32 = dot_product_unrolled(norm_query.as_slice(), row);
            assert(sc == scores[i as int]);
            if gt32(sc, best) {
                best = sc;
                best_idx = Some(i);
            }
            i = i + 1;
        }
        match best_idx {
            None => None,
            Some(k) => {
                assert(hit_at(scores, threshold, k as int));
                Some((self.ids[k], best))
            },
        }
    }

    /// Naive baseline: the same selection rule, with the inner product
    /// accumulated as a single left-to-right fold instead of the
    /// unrolled kernel.
    pub fn search_naive(&self, query: &[u32], threshold: u32) -> (r: SearchResult)
        requires
            self.wf(),
            query@.len() == self.dim,
        ensures
            selection_ok(simple_scores(self, normalize_bits(query@)), self.ids@, threshold, r),
    {
        let ghost scores = simple_scores(self, normalize_bits(query@));
        let n: usize = self.ids.len();
        if n == 0 {
            return None;
        }
        let norm_query: Vec<u32> = normalize_vec(query);

        let mut best: u32 = threshold;
        let mut best_idx: Option<usize> = None;
        let mut i: usize = 0;
        while i < n
            invariant
                i <= n,
                n == self.spec_len(),
                self.wf(),
                query@.len() == self.dim,
                norm_query@ == normalize_bits(query@),
                norm_query@.len() == self.dim,
                scores == simple_scores(self, normalize_bits(query@)),
                (match best_idx {
                    None => best == threshold && (forall|j: int|
                        0 <= j < i ==> !gt_bits(#[trigger] scores[j], threshold)),
                    Some(k) => {
                        &&& (k as int) < i
                        &&& best == scores[k as int]
                        &&& gt_bits(scores[k as int], threshold)
                        &&& (forall|j: int|
                            0 <= j < i ==> !gt_bits(#[trigger] scores[j], scores[k as int]))
                        &&& (forall|j: int|
                            0 <= j < k as int ==> is_nan_bits(#[trigger] scores[j]) || gt_bits(
                                scores[k as int],
                                scores[j],
                            ))
                    },
                }),
            decreases n - i,
        {
            let row = self.row_slice(i);
            let sc: u32 = dot_product_simple(norm_query.as_slice(), row);
            assert(sc == scores[i as int]);
            if gt32(sc, best) {
                best = sc;
                best_idx = Some(i);
            }
            i = i + 1;
        }
        match best_idx {
            None => None,
            Some(k) => {
                assert(hit_at(scores, threshold, k as int));
                Some((self.ids[k], best))
            },
        }
    }

    /// One worker's scan: the running best over rows `lo..hi` starting
    /// from the reduction identity (absent, negative infinity). Exposed
    /// so a caller may dispatch disjoint ranges onto worker threads and
    /// reduce the local results with the same tie-break rule.
    pub fn best_in_range(&self, norm_query: &[u32], lo: usize, hi: usize) -> (r: Option<
        (usize, u32),
    >)
        requires
            self.wf(),
            norm_query@.len() == self.dim,
            lo <= hi <= self.spec_len(),
        ensures
            (match r {
                None => forall|j: int|
                    lo <= j < hi ==> !gt_bits(
                        #[trigger] unrolled_scores(self, norm_query@)[j],
                        MINUS_INF_BITS,
                    ),
                Some(p) => {
                    let scores = unrolled_scores(self, norm_query@);
                    &&& lo <= p.0 < hi
                    &&& p.1 == scores[p.0 as int]
                    &&& gt_bits(p.1, MINUS_INF_BITS)
                    &&& (forall|j: int|
                        lo <= j < hi ==> !gt_bits(#[trigger] scores[j], scores[p.0 as int]))
                    &&& (forall|j: int|
                        lo <= j < p.0 as int ==> is_nan_bits(#[trigger] scores[j]) || gt_bits(
                            scores[p.0 as int],
                            scores[j],
                        ))
                },
            }),
    {
        let ghost scores = unrolled_scores(self, norm_query@);
        let mut best: u32 = MINUS_INF_BITS;
        let mut best_idx: Option<usize> = None;
        let mut i: usize = lo;
        while i < hi
            invariant
                lo <= i <= hi,
                hi <= self.spec_len(),
                self.wf(),
                norm_query@.len() == self.dim,
                scores == unrolled_scores(self, norm_query@),
                (match best_idx {
                    None => best == MINUS_INF_BITS && (forall|j: int|
                        lo <= j < i ==> !gt_bits(#[trigger] scores[j], MINUS_INF_BITS)),
                    Some(k) => {
                        &&& lo <= (k as int)
                        &&& (k as int) < i
                        &&& best == scores[k as int]
                        &&& gt_bits(scores[k as int], MINUS_INF_BITS)
                        &&& (forall|j: int|
                            lo <= j < i ==> !gt_bits(#[trigger] scores[j], scores[k as int]))
                        &&& (forall|j: int|
                            lo <= j < k as int ==> is_nan_bits(#[trigger] scores[j]) || gt_bits(
                                scores[k as int],
                                scores[j],
                            ))
                    },
                }),
            decreases hi - i,
        {
            let row = self.row_slice(i);
            let sc: u32 = dot_product_unrolled(norm_query, row);
            assert(sc == scores[i as int]);
            if gt32(sc, best) {
                best = sc;
                best_idx = Some(i);
            }
            i = i + 1;
        }
        match best_idx {
            None => None,
            Some(k) => Some((k, best)),
        }
    }

    /// Chunked variant of `search`: rows are split into fixed-size,
    /// non-overlapping chunks, each chunk is scanned on its own with the
    /// strict-greater rule, and the reduction keeps the higher score,
    /// breaking ties toward the lower index. The result satisfies the
    /// same selection contract as `search`, over the same scores.
    pub fn search_parallel(&self, query: &[u32], threshold: u32) -> (r: SearchResult)
        requires
            self.wf(),
            query@.len() == self.dim,
        ensures
            selection_ok(unrolled_scores(self, normalize_bits(query@)), self.ids@, threshold, r),
    {
        let ghost scores = unrolled_scores(self, normalize_bits(query@));
        let n: usize = self.ids.len();
        if n == 0 {
            return None;
        }
        let norm_query: Vec<u32> = normalize_vec(query);

        let mut gbest: Option<(usize, u32)> = None;
        let mut lo: usize = 0;
        while lo < n
            invariant
                lo <= n,
                n == self.spec_len(),
                self.wf(),
                query@.len() == self.dim,
                norm_query@ == normalize_bits(query@),
                norm_query@.len() == self.dim,
                scores == unrolled_scores(self, normalize_bits(query@)),
                (match gbest {
                    None => forall|j: int|
                        0 <= j < lo ==> !gt_bits(#[trigger] scores[j], MINUS_INF_BITS),
                    Some(p) => {
                        &&& (p.0 as int) < lo
                        &&& p.1 == scores[p.0 as int]
                        &&& gt_bits(p.1, MINUS_INF_BITS)
                        &&& (forall|j: int|
                            0 <= j < lo ==> !gt_bits(#[trigger] scores[j], scores[p.0 as int]))
                        &&& (forall|j: int|
                            0 <= j < p.0 as int ==> is_nan_bits(#[trigger] scores[j]) || gt_bits(
                                scores[p.0 as int],
                                scores[j],
                            ))
                    },
                }),
            decreases n - lo,
        {
            let hi: usize = if n - lo > PARALLEL_CHUNK_ROWS {
                lo + PARALLEL_CHUNK_ROWS
            } else {
                n
            };
            let local = self.best_in_range(norm_query.as_slice(), lo, hi);
            match (gbest, local) {
                (None, Some(p)) => {
                    gbest = Some(p);
                },
                (Some(g), Some(p)) => {
                    if gt32(p.1, g.1) {
                        gbest = Some(p);
                    }
                },
                (_, None) => {},
            }
            lo = hi;
        }
        match gbest {
            None => {
                proof {
                    lemma_not_above_minus_inf_never_hits(scores, threshold);
                }
                None
            },
            Some(g) => {
                if gt32(g.1, threshold) {
                    assert(hit_at(scores, threshold, g.0 as int));
                    Some((self.ids[g.0], g.1))
                } else {
                    None
                }
            },
        }
    }
}

/// For any bit pattern `t` that is not NaN, the key of negative infinity
/// is least.
proof fn lemma_minus_inf_bottom(t: u32)
    requires
        !is_nan_bits(t),
    ensures
        key_bits(t) >= key_bits(MINUS_INF_BITS),
{
    assert(!is_nan_bits(t) ==> key_bits(t) >= key_bits(MINUS_INF_BITS)) by (bit_vector);
}

/// A score sequence in which nothing strictly exceeds negative infinity
/// has no hit above any threshold at all: such scores are NaN or
/// negative infinity themselves.
proof fn lemma_not_above_minus_inf_never_hits(scores: Seq<u32>, tau: u32)
    requires
        forall|j: int| 0 <= j < scores.len() ==> !gt_bits(#[trigger] scores[j], MINUS_INF_BITS),
    ensures
        no_hit(scores, tau),
{
    assert(!is_nan_bits(MINUS_INF_BITS)) by (bit_vector);
    assert forall|j: int| 0 <= j < scores.len() implies !gt_bits(#[trigger] scores[j], tau) by {
        if !is_nan_bits(scores[j]) && !is_nan_bits(tau) {
            lemma_minus_inf_bottom(scores[j]);
            lemma_minus_inf_bottom(tau);
        }
    }
}

/// The selection contract pins the result down: two results that both
/// satisfy it for the same scores, ids and threshold are equal. The
/// chunked (parallel-order) search therefore returns exactly what the
/// sequential search returns.
pub proof fn lemma_selection_deterministic(
    scores: Seq<u32>,
    ids: Seq<u64>,
    tau: u32,
    r1: SearchResult,
    r2: SearchResult,
)
    requires
        selection_ok(scores, ids, tau, r1),
        selection_ok(scores, ids, tau, r2),
    ensures
        r1 == r2,
{
    match (r1, r2) {
        (Some(p1), Some(p2)) => {
            let i1 = choose|i: int| hit_at(scores, tau, i) && p1.0 == ids[i] && p1.1 == scores[i];
            let i2 = choose|i: int| hit_at(scores, tau, i) && p2.0 == ids[i] && p2.1 == scores[i];
            if i1 < i2 {
                assert(is_nan_bits(scores[i1]) || gt_bits(scores[i2], scores[i1]));
                assert(false);
            } else if i2 < i1 {
                assert(is_nan_bits(scores[i2]) || gt_bits(scores[i1], scores[i2]));
                assert(false);
            }
        },
        (Some(p1), None) => {
            let i1 = choose|i: int| hit_at(scores, tau, i) && p1.0 == ids[i] && p1.1 == scores[i];
            assert(!gt_bits(scores[i1], tau));
        },
        (None, Some(p2)) => {
            let i2 = choose|i: int| hit_at(scores, tau, i) && p2.0 == ids[i] && p2.1 == scores[i];
            assert(!gt_bits(scores[i2], tau));
        },
        (None, None) => {},
    }
}

/// An empty store answers absent, whatever the query and threshold.
pub proof fn lemma_empty_store_absent(
    scores: Seq<u32>,
    ids: Seq<u64>,
    tau: u32,
    r: SearchResult,
)
    requires
        scores.len() == 0,
        selection_ok(scores, ids, tau, r),
    ensures
        r is None,
{
    if r is Some {
        let i = choose|i: int|
            hit_at(scores, tau, i) && r->Some_0.0 == ids[i] && r->Some_0.1 == scores[i];
        assert(0 <= i < 0);
    }
}

/// A threshold of positive infinity suppresses every result.
pub proof fn lemma_plus_inf_threshold_absent(
    scores: Seq<u32>,
    ids: Seq<u64>,
    r: SearchResult,
)
    requires
        selection_ok(scores, ids, PLUS_INF_BITS, r),
    ensures
        r is None,
{
    if r is Some {
        let i = choose|i: int|
            hit_at(scores, PLUS_INF_BITS, i) && r->Some_0.0 == ids[i] && r->Some_0.1 == scores[i];
        lemma_nothing_above_plus_inf(scores[i]);
    }
}

/// With a threshold of negative infinity, a result is owed whenever any
/// row's score is an ordinary value: only a store whose every score is
/// NaN or negative infinity may answer absent. (A row holding NaN
/// components, for example, scores NaN against every query and is never
/// returned.)
pub proof fn lemma_minus_inf_threshold_present(
    scores: Seq<u32>,
    ids: Seq<u64>,
    r: SearchResult,
    witness: int,
)
    requires
        0 <= witness < scores.len(),
        !is_nan_bits(scores[witness]),
        scores[witness] != MINUS_INF_BITS,
        selection_ok(scores, ids, MINUS_INF_BITS, r),
    ensures
        r is Some,
{
    if r is None {
        crate::ieee::lemma_everything_above_minus_inf(scores[witness]);
    }
}

} // verus!
