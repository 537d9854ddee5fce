//! The store: a flat structure-of-arrays buffer of normalized rows and
//! the parallel array of caller ids.
//!
//! Row `i` occupies `data[i*dim .. (i+1)*dim]` and belongs to `ids[i]`;
//! rows are only ever appended, in insertion order. The well-formedness
//! predicate `wf` carries the central layout invariant
//! `|data| == |ids| * dim` with `dim > 0`, which makes every row window
//! provably in bounds.

use vstd::prelude::*;
use crate::kernel::{normalize_bits, normalize_vec};

verus! {

/// Search result: the id of the best row and its cosine score as a
/// binary32 bit pattern, or absent when nothing beat the threshold.
pub type SearchResult = Option<(u64, u32)>;

/// The vector store. Components are binary32 bit patterns.
pub struct Abkve {
    /// Dimensionality of every stored row; fixed at construction.
    pub dim: usize,
    /// Flat structure-of-arrays storage: row `i` is
    /// `data[i*dim .. (i+1)*dim]`.
    pub data: Vec<u32>,
    /// Caller-assigned ids, parallel to the rows of `data`.
    pub ids: Vec<u64>,
}

impl Abkve {
    /// The layout invariant: a positive fixed dimension, and exactly one
    /// `dim`-wide window of `data` per id.
    pub open spec fn wf(&self) -> bool {
        &&& self.dim > 0
        &&& self.data@.len() == self.ids@.len() * self.dim
    }

    /// Row `i`: the `dim`-wide window of `data` at offset `i*dim`.
    pub open spec fn row(&self, i: int) -> Seq<u32> {
        self.data@.subrange(i * self.dim, (i + 1) * self.dim)
    }

    /// Number of stored rows.
    pub open spec fn spec_len(&self) -> nat {
        self.ids@.len()
    }

    /// Every row window of a well-formed store lies inside `data`.
    pub proof fn lemma_row_in_bounds(&self, i: int)
        requires
            self.wf(),
            0 <= i < self.spec_len(),
        ensures
            0 <= i * self.dim,
            i * self.dim + self.dim == (i + 1) * self.dim,
            (i + 1) * self.dim <= self.data@.len(),
            self.row(i).len() == self.dim,
    {
        assert(0 <= i * self.dim && i * self.dim + self.dim == (i + 1) * self.dim && (i + 1)
            * self.dim <= self.ids@.len() * self.dim)
            by (nonlinear_arith)
            requires
                0 <= i < self.ids@.len(),
                self.dim >= 0,
        ;
    }

    /// Create an empty store for rows of `dim` dimensions, reserving
    /// space for `capacity` rows up front. A zero dimension is a caller
    /// contract violation and is excluded here; the unverified shell
    /// checks it and aborts as the reference behaviour demands.
    pub fn new(dim: usize, capacity: usize) -> (s: Self)
        requires
            dim > 0,
            dim * capacity <= usize::MAX,
        ensures
            s.wf(),
            s.dim == dim,
            s.ids@ == Seq::<u64>::empty(),
            s.data@ == Seq::<u32>::empty(),
    {
        let data: Vec<u32> = Vec::with_capacity(dim * capacity);
        let ids: Vec<u64> = Vec::with_capacity(capacity);
        Abkve { dim, data, ids }
    }

    /// Number of rows currently stored.
    pub fn len(&self) -> (n: usize)
        ensures
            n == self.spec_len(),
    {
        self.ids.len()
    }

    /// Whether the store holds no rows.
    pub fn is_empty(&self) -> (e: bool)
        ensures
            e == (self.spec_len() == 0),
    {
        self.ids.len() == 0
    }

    /// The dimensionality fixed at construction.
    pub fn dim(&self) -> (d: usize)
        ensures
            d == self.dim,
    {
        self.dim
    }

    /// Append the normalized image of `vector` as a new row owned by
    /// `id`. No deduplication is performed on `id`: a duplicate id gets
    /// a second row. A vector of the wrong length is a caller contract
    /// violation and is excluded here; the unverified shell checks it
    /// and aborts as the reference behaviour demands.
    pub fn add(&mut self, id: u64, vector: &[u32])
        requires
            old(self).wf(),
            vector@.len() == old(self).dim,
        ensures
            final(self).wf(),
            final(self).dim == old(self).dim,
            final(self).ids@ == old(self).ids@.push(id),
            final(self).data@ == old(self).data@ + normalize_bits(vector@),
    {
        let normalized: Vec<u32> = normalize_vec(vector);
        let count: usize = normalized.len();
        let mut k: usize = 0;
        while k < count
            invariant
                k <= count,
                count == normalize_bits(vector@).len(),
                normalized@ == normalize_bits(vector@),
                self.dim == old(self).dim,
                self.ids@ == old(self).ids@,
                self.data@ == old(self).data@ + normalize_bits(vector@).subrange(0, k as int),
            decreases count - k,
        {
            self.data.push(normalized[k]);
            assert(self.data@ =~= old(self).data@ + normalize_bits(vector@).subrange(
                0,
                k + 1,
            ));
            k = k + 1;
        }
        assert(self.data@ =~= old(self).data@ + normalize_bits(vector@));
        self.ids.push(id);
        proof {
            let n = old(self).ids@.len() as int;
            let d = old(self).dim as int;
            assert((n + 1) * d == n * d + d) by (nonlinear_arith);
        }
    }

    /// Borrow row `i` as a slice.
    pub fn row_slice(&self, i: usize) -> (r: &[u32])
        requires
            self.wf(),
            i < self.spec_len(),
        ensures
            r@ == self.row(i as int),
            r@.len() == self.dim,
    {
        let total: usize = self.data.len();
        proof {
            self.lemma_row_in_bounds(i as int);
        }
        let base: usize = i * self.dim;
        vstd::slice::slice_subrange(self.data.as_slice(), base, base + self.dim)
    }
}

} // verus!
