//! The snapshot codec: a self-describing little-endian byte image of the
//! whole store, and its exact inverse.
//!
//! Layout: `dim` as a little-endian 64-bit integer, the id count, the
//! ids, the component count (which must equal `count * dim`), then the
//! components as little-endian 32-bit patterns. `save` produces exactly
//! this image; `load` accepts exactly these images and nothing else, so
//! a malformed or truncated image yields an error and never a partially
//! populated store. The round-trip theorem at the bottom states that
//! parsing an encoded store gives back precisely its dimension, ids and
//! data.

use vstd::prelude::*;
use crate::store::Abkve;

verus! {

/// Why an image failed to decode.
#[derive(Debug, Clone, Copy, PartialEq, Eq, Structural)]
pub enum LoadError {
    /// The image ends before the content its length fields announce.
    Truncated,
    /// The dimension field is zero or beyond what this machine can hold.
    BadDimension,
    /// The component count disagrees with the id count and dimension.
    BadLength,
    /// Bytes remain after the announced content.
    TrailingBytes,
}

/// The eight-byte little-endian image of a 64-bit integer.
pub open spec fn u64_le(x: u64) -> Seq<u8> {
    seq![
        (x & 0xFF) as u8,
        ((x >> 8u64) & 0xFF) as u8,
        ((x >> 16u64) & 0xFF) as u8,
        ((x >> 24u64) & 0xFF) as u8,
        ((x >> 32u64) & 0xFF) as u8,
        ((x >> 40u64) & 0xFF) as u8,
        ((x >> 48u64) & 0xFF) as u8,
        ((x >> 56u64) & 0xFF) as u8,
    ]
}

/// The four-byte little-endian image of a 32-bit pattern.
pub open spec fn u32_le(x: u32) -> Seq<u8> {
    seq![
        (x & 0xFF) as u8,
        ((x >> 8u32) & 0xFF) as u8,
        ((x >> 16u32) & 0xFF) as u8,
        ((x >> 24u32) & 0xFF) as u8,
    ]
}

/// The first `n` ids, each as eight little-endian bytes.
pub open spec fn ids_le(ids: Seq<u64>, n: int) -> Seq<u8>
    decreases n,
{
    if n <= 0 {
        Seq::empty()
    } else {
        ids_le(ids, n - 1) + u64_le(ids[n - 1])
    }
}

/// The first `n` components, each as four little-endian bytes.
pub open spec fn data_le(data: Seq<u32>, n: int) -> Seq<u8>
    decreases n,
{
    if n <= 0 {
        Seq::empty()
    } else {
        data_le(data, n - 1) + u32_le(data[n - 1])
    }
}

/// The whole snapshot image of a store with dimension `dim`, ids `ids`
/// and flat data `data`.
pub open spec fn snapshot_bytes(dim: u64, ids: Seq<u64>, data: Seq<u32>) -> Seq<u8> {
    u64_le(dim) + u64_le(ids.len() as u64) + ids_le(ids, ids.len() as int) + u64_le(
        data.len() as u64,
    ) + data_le(data, data.len() as int)
}

/// The snapshot image of a store.
pub open spec fn store_bytes(s: &Abkve) -> Seq<u8> {
    snapshot_bytes(s.dim as u64, s.ids@, s.data@)
}

/// The 64-bit integer whose little-endian image sits at `off`.
pub open spec fn le64_at(b: Seq<u8>, off: int) -> u64 {
    (b[off] as u64) | ((b[off + 1] as u64) << 8u64) | ((b[off + 2] as u64) << 16u64) | ((b[off
        + 3] as u64) << 24u64) | ((b[off + 4] as u64) << 32u64) | ((b[off + 5] as u64) << 40u64)
        | ((b[off + 6] as u64) << 48u64) | ((b[off + 7] as u64) << 56u64)
}

/// The 32-bit pattern whose little-endian image sits at `off`.
pub open spec fn le32_at(b: Seq<u8>, off: int) -> u32 {
    (b[off] as u32) | ((b[off + 1] as u32) << 8u32) | ((b[off + 2] as u32) << 16u32) | ((b[off
        + 3] as u32) << 24u32)
}

/// The `n` ids whose images sit consecutively at `off`.
pub open spec fn ids_at(b: Seq<u8>, off: int, n: int) -> Seq<u64> {
    Seq::new(n as nat, |i: int| le64_at(b, off + 8 * i))
}

/// The `n` components whose images sit consecutively at `off`.
pub open spec fn data_at(b: Seq<u8>, off: int, n: int) -> Seq<u32> {
    Seq::new(n as nat, |i: int| le32_at(b, off + 4 * i))
}

/// Exact decoding of a snapshot image: the dimension, ids and data of
/// the encoded store, or nothing if the image is not exactly a snapshot.
pub open spec fn parse_snapshot(b: Seq<u8>) -> Option<(u64, Seq<u64>, Seq<u32>)> {
    if b.len() < 24 {
        None
    } else {
        let dim = le64_at(b, 0);
        let m = le64_at(b, 8);
        if dim == 0 || dim > usize::MAX as u64 {
            None
        } else if b.len() < 24 + 8 * (m as int) {
            None
        } else {
            let dlen = le64_at(b, 16 + 8 * (m as int));
            if dlen as int != (m as int) * (dim as int) {
                None
            } else if b.len() != 24 + 8 * (m as int) + 4 * (dlen as int) {
                None
            } else {
                Some((dim, ids_at(b, 16, m as int), data_at(b, 24 + 8 * (m as int), dlen as int)))
            }
        }
    }
}

/// Which flaw makes an image unparseable; meaningful exactly when
/// `parse_snapshot` yields nothing.
pub open spec fn snapshot_flaw(b: Seq<u8>) -> LoadError {
    if b.len() < 24 {
        LoadError::Truncated
    } else {
        let dim = le64_at(b, 0);
        let m = le64_at(b, 8);
        if dim == 0 || dim > usize::MAX as u64 {
            LoadError::BadDimension
        } else if b.len() < 24 + 8 * (m as int) {
            LoadError::Truncated
        } else {
            let dlen = le64_at(b, 16 + 8 * (m as int));
            if dlen as int != (m as int) * (dim as int) {
                LoadError::BadLength
            } else if b.len() < 24 + 8 * (m as int) + 4 * (dlen as int) {
                LoadError::Truncated
            } else {
                LoadError::TrailingBytes
            }
        }
    }
}

/// Append the little-endian image of a 64-bit integer.
fn push_u64_le(out: &mut Vec<u8>, x: u64)
    ensures
        final(out)@ == old(out)@ + u64_le(x),
{
    out.push((x & 0xFF) as u8);
    out.push(((x >> 8u64) & 0xFF) as u8);
    out.push(((x >> 16u64) & 0xFF) as u8);
    out.push(((x >> 24u64) & 0xFF) as u8);
    out.push(((x >> 32u64) & 0xFF) as u8);
    out.push(((x >> 40u64) & 0xFF) as u8);
    out.push(((x >> 48u64) & 0xFF) as u8);
    out.push(((x >> 56u64) & 0xFF) as u8);
    assert(out@ =~= old(out)@ + u64_le(x));
}

/// Append the little-endian image of a 32-bit pattern.
fn push_u32_le(out: &mut Vec<u8>, x: u32)
    ensures
        final(out)@ == old(out)@ + u32_le(x),
{
    out.push((x & 0xFF) as u8);
    out.push(((x >> 8u32) & 0xFF) as u8);
    out.push(((x >> 16u32) & 0xFF) as u8);
    out.push(((x >> 24u32) & 0xFF) as u8);
    assert(out@ =~= old(out)@ + u32_le(x));
}

/// Read the 64-bit integer at `off`.
fn read_u64_le(bytes: &[u8], off: usize) -> (r: u64)
    requires
        off + 8 <= bytes@.len(),
    ensures
        r == le64_at(bytes@, off as int),
{
    (bytes[off] as u64) | ((bytes[off + 1] as u64) << 8u64) | ((bytes[off + 2] as u64) << 16u64)
        | ((bytes[off + 3] as u64) << 24u64) | ((bytes[off + 4] as u64) << 32u64) | ((bytes[off
        + 5] as u64) << 40u64) | ((bytes[off + 6] as u64) << 48u64) | ((bytes[off + 7] as u64)
        << 56u64)
}

/// Read the 32-bit pattern at `off`.
fn read_u32_le(bytes: &[u8], off: usize) -> (r: u32)
    requires
        off + 4 <= bytes@.len(),
    ensures
        r == le32_at(bytes@, off as int),
{
    (bytes[off] as u32) | ((bytes[off + 1] as u32) << 8u32) | ((bytes[off + 2] as u32) << 16u32)
        | ((bytes[off + 3] as u32) << 24u32)
}

impl Abkve {
    /// Encode the store's entire state as one snapshot image.
    pub fn save(&self) -> (out: Vec<u8>)
        ensures
            out@ == store_bytes(self),
    {
        let mut out: Vec<u8> = Vec::new();
        push_u64_le(&mut out, self.dim as u64);
        push_u64_le(&mut out, self.ids.len() as u64);

        let m: usize = self.ids.len();
        let mut i: usize = 0;
        while i < m
            invariant
                i <= m,
                m == self.ids@.len(),
                out@ == u64_le(self.dim as u64) + u64_le(self.ids@.len() as u64) + ids_le(
                    self.ids@,
                    i as int,
                ),
            decreases m - i,
        {
            push_u64_le(&mut out, self.ids[i]);
            i = i + 1;
        }

        push_u64_le(&mut out, self.data.len() as u64);

        let d: usize = self.data.len();
        let mut j: usize = 0;
        while j < d
            invariant
                j <= d,
                d == self.data@.len(),
                out@ == u64_le(self.dim as u64) + u64_le(self.ids@.len() as u64) + ids_le(
                    self.ids@,
                    self.ids@.len() as int,
                ) + u64_le(self.data@.len() as u64) + data_le(self.data@, j as int),
            decreases d - j,
        {
            push_u32_le(&mut out, self.data[j]);
            j = j + 1;
        }
        out
    }

    /// Decode a snapshot image into a fresh store. Accepts exactly the
    /// images `parse_snapshot` accepts; every flawed image yields the
    /// error `snapshot_flaw` names, and no store.
    pub fn load(bytes: &[u8]) -> (r: Result<Abkve, LoadError>)
        ensures
            r is Ok <==> parse_snapshot(bytes@) is Some,
            (r matches Ok(s) ==> {
                &&& s.wf()
                &&& parse_snapshot(bytes@) == Some((s.dim as u64, s.ids@, s.data@))
            }),
            (r matches Err(e) ==> e == snapshot_flaw(bytes@)),
    {
        let total: usize = bytes.len();
        if total < 24 {
            return Err(LoadError::Truncated);
        }
        let dim64: u64 = read_u64_le(bytes, 0);
        let m64: u64 = read_u64_le(bytes, 8);
        if dim64 == 0 || dim64 > usize::MAX as u64 {
            return Err(LoadError::BadDimension);
        }
        if m64 > usize::MAX as u64 {
            return Err(LoadError::Truncated);
        }
        let m: usize = m64 as usize;
        if (total - 24) / 8 < m {
            return Err(LoadError::Truncated);
        }
        let dim: usize = dim64 as usize;
        let ids_bytes: usize = 8 * m;

        let dlen64: u64 = read_u64_le(bytes, 16 + ids_bytes);
        let consistent: bool = match m64.checked_mul(dim64) {
            Some(product) => dlen64 == product,
            None => false,
        };
        if !consistent {
            proof {
                if m64.checked_mul(dim64) is None {
                    assert((m64 as int) * (dim64 as int) > u64::MAX);
                }
            }
            return Err(LoadError::BadLength);
        }
        let rest: usize = total - 24 - ids_bytes;
        if rest / 4 < dlen64 as usize || (dlen64 > usize::MAX as u64) {
            proof {
                assert(total < 24 + 8 * (m as int) + 4 * (dlen64 as int));
            }
            return Err(LoadError::Truncated);
        }
        let dlen: usize = dlen64 as usize;
        if rest != 4 * dlen {
            return Err(LoadError::TrailingBytes);
        }

        let mut ids: Vec<u64> = Vec::with_capacity(m);
        let mut i: usize = 0;
        while i < m
            invariant
                i <= m,
                24 + 8 * m <= total,
                total == bytes@.len(),
                ids@.len() == i,
                forall|k: int| 0 <= k < i ==> ids@[k] == le64_at(bytes@, 16 + 8 * k),
            decreases m - i,
        {
            ids.push(read_u64_le(bytes, 16 + 8 * i));
            i = i + 1;
        }
        assert(ids@ =~= ids_at(bytes@, 16, m as int));

        let data_off: usize = 24 + ids_bytes;
        let mut data: Vec<u32> = Vec::with_capacity(dlen);
        let mut j: usize = 0;
        while j < dlen
            invariant
                j <= dlen,
                data_off == 24 + 8 * m,
                data_off + 4 * dlen <= total,
                total == bytes@.len(),
                data@.len() == j,
                forall|k: int| 0 <= k < j ==> data@[k] == le32_at(bytes@, data_off + 4 * k),
            decreases dlen - j,
        {
            data.push(read_u32_le(bytes, data_off + 4 * j));
            j = j + 1;
        }
        assert(data@ =~= data_at(bytes@, 24 + 8 * (m as int), dlen as int));

        let store = Abkve { dim, data, ids };
        proof {
            assert((m as int) * (dim as int) == (store.ids@.len() as int) * (store.dim as int));
        }
        Ok(store)
    }
}

proof fn lemma_ids_le_len(ids: Seq<u64>, n: int)
    requires
        0 <= n,
    ensures
        ids_le(ids, n).len() == 8 * n,
    decreases n,
{
    if n > 0 {
        lemma_ids_le_len(ids, n - 1);
    }
}

proof fn lemma_data_le_len(data: Seq<u32>, n: int)
    requires
        0 <= n,
    ensures
        data_le(data, n).len() == 4 * n,
    decreases n,
{
    if n > 0 {
        lemma_data_le_len(data, n - 1);
    }
}

/// Eight consecutive little-endian bytes of `x` at `off` decode to `x`.
proof fn lemma_le64_at_of(b: Seq<u8>, off: int, x: u64)
    requires
        0 <= off,
        off + 8 <= b.len(),
        forall|k: int| 0 <= k < 8 ==> #[trigger] b[off + k] == u64_le(x)[k],
    ensures
        le64_at(b, off) == x,
{
    assert(b[off + 0] == u64_le(x)[0]);
    assert(b[off + 1] == u64_le(x)[1]);
    assert(b[off + 2] == u64_le(x)[2]);
    assert(b[off + 3] == u64_le(x)[3]);
    assert(b[off + 4] == u64_le(x)[4]);
    assert(b[off + 5] == u64_le(x)[5]);
    assert(b[off + 6] == u64_le(x)[6]);
    assert(b[off + 7] == u64_le(x)[7]);
    let b0 = b[off];
    let b1 = b[off + 1];
    let b2 = b[off + 2];
    let b3 = b[off + 3];
    let b4 = b[off + 4];
    let b5 = b[off + 5];
    let b6 = b[off + 6];
    let b7 = b[off + 7];
    assert((b0 as u64) | ((b1 as u64) << 8u64) | ((b2 as u64) << 16u64) | ((b3 as u64) << 24u64)
        | ((b4 as u64) << 32u64) | ((b5 as u64) << 40u64) | ((b6 as u64) << 48u64) | ((b7 as u64)
        << 56u64) == x) by (bit_vector)
        requires
            b0 == (x & 0xFF) as u8,
            b1 == ((x >> 8u64) & 0xFF) as u8,
            b2 == ((x >> 16u64) & 0xFF) as u8,
            b3 == ((x >> 24u64) & 0xFF) as u8,
            b4 == ((x >> 32u64) & 0xFF) as u8,
            b5 == ((x >> 40u64) & 0xFF) as u8,
            b6 == ((x >> 48u64) & 0xFF) as u8,
            b7 == ((x >> 56u64) & 0xFF) as u8,
    ;
}

/// Four consecutive little-endian bytes of `x` at `off` decode to `x`.
proof fn lemma_le32_at_of(b: Seq<u8>, off: int, x: u32)
    requires
        0 <= off,
        off + 4 <= b.len(),
        forall|k: int| 0 <= k < 4 ==> #[trigger] b[off + k] == u32_le(x)[k],
    ensures
        le32_at(b, off) == x,
{
    assert(b[off + 0] == u32_le(x)[0]);
    assert(b[off + 1] == u32_le(x)[1]);
    assert(b[off + 2] == u32_le(x)[2]);
    assert(b[off + 3] == u32_le(x)[3]);
    let b0 = b[off];
    let b1 = b[off + 1];
    let b2 = b[off + 2];
    let b3 = b[off + 3];
    assert((b0 as u32) | ((b1 as u32) << 8u32) | ((b2 as u32) << 16u32) | ((b3 as u32) << 24u32)
        == x) by (bit_vector)
        requires
            b0 == (x & 0xFF) as u8,
            b1 == ((x >> 8u32) & 0xFF) as u8,
            b2 == ((x >> 16u32) & 0xFF) as u8,
            b3 == ((x >> 24u32) & 0xFF) as u8,
    ;
}

/// Byte `8*j + k` of the encoded id block is byte `k` of id `j`.
proof fn lemma_ids_le_index(ids: Seq<u64>, n: int, j: int)
    requires
        0 <= j < n,
    ensures
        forall|k: int| 0 <= k < 8 ==> #[trigger] ids_le(ids, n)[8 * j + k] == u64_le(ids[j])[k],
    decreases n,
{
    lemma_ids_le_len(ids, n - 1);
    if j == n - 1 {
        assert forall|k: int| 0 <= k < 8 implies #[trigger] ids_le(ids, n)[8 * j + k]
            == u64_le(ids[j])[k] by {
            assert(ids_le(ids, n)[8 * j + k] == u64_le(ids[j])[k]);
        }
    } else {
        lemma_ids_le_index(ids, n - 1, j);
        assert forall|k: int| 0 <= k < 8 implies #[trigger] ids_le(ids, n)[8 * j + k]
            == u64_le(ids[j])[k] by {
            assert(ids_le(ids, n)[8 * j + k] == ids_le(ids, n - 1)[8 * j + k]);
        }
    }
}

/// Byte `4*j + k` of the encoded data block is byte `k` of component `j`.
proof fn lemma_data_le_index(data: Seq<u32>, n: int, j: int)
    requires
        0 <= j < n,
    ensures
        forall|k: int| 0 <= k < 4 ==> #[trigger] data_le(data, n)[4 * j + k] == u32_le(data[j])[k],
    decreases n,
{
    lemma_data_le_len(data, n - 1);
    if j == n - 1 {
        assert forall|k: int| 0 <= k < 4 implies #[trigger] data_le(data, n)[4 * j + k]
            == u32_le(data[j])[k] by {
            assert(data_le(data, n)[4 * j + k] == u32_le(data[j])[k]);
        }
    } else {
        lemma_data_le_index(data, n - 1, j);
        assert forall|k: int| 0 <= k < 4 implies #[trigger] data_le(data, n)[4 * j + k]
            == u32_le(data[j])[k] by {
            assert(data_le(data, n)[4 * j + k] == data_le(data, n - 1)[4 * j + k]);
        }
    }
}

/// Round trip at the image level: parsing the snapshot of any store
/// state gives back exactly that dimension, those ids and that data.
/// Together with the contracts of `save` and `load`, loading a saved
/// store yields a store identical in `dim`, `ids` and `data`.
pub proof fn lemma_snapshot_round_trip(dim: u64, ids: Seq<u64>, data: Seq<u32>)
    requires
        0 < dim <= usize::MAX as u64,
        ids.len() <= usize::MAX,
        data.len() <= usize::MAX,
        data.len() == ids.len() * (dim as int),
    ensures
        parse_snapshot(snapshot_bytes(dim, ids, data)) == Some((dim, ids, data)),
{
    let m = ids.len() as int;
    let dl = data.len() as int;
    let b = snapshot_bytes(dim, ids, data);
    lemma_ids_le_len(ids, m);
    lemma_data_le_len(data, dl);
    assert(b.len() == 24 + 8 * m + 4 * dl);

    assert forall|k: int| 0 <= k < 8 implies #[trigger] b[0 + k] == u64_le(dim)[k] by {
        assert(b[0 + k] == u64_le(dim)[k]);
    }
    lemma_le64_at_of(b, 0, dim);

    assert forall|k: int| 0 <= k < 8 implies #[trigger] b[8 + k] == u64_le(
        ids.len() as u64,
    )[k] by {
        assert(b[8 + k] == u64_le(ids.len() as u64)[k]);
    }
    lemma_le64_at_of(b, 8, ids.len() as u64);
    assert(le64_at(b, 8) as int == m);

    assert forall|k: int| 0 <= k < 8 implies #[trigger] b[16 + 8 * m + k] == u64_le(
        data.len() as u64,
    )[k] by {
        assert(b[16 + 8 * m + k] == u64_le(data.len() as u64)[k]);
    }
    lemma_le64_at_of(b, 16 + 8 * m, data.len() as u64);
    assert(le64_at(b, 16 + 8 * m) as int == dl);

    assert forall|i: int| 0 <= i < m implies #[trigger] ids_at(b, 16, m)[i] == ids[i] by {
        lemma_ids_le_index(ids, m, i);
        assert forall|k: int| 0 <= k < 8 implies #[trigger] b[16 + 8 * i + k] == u64_le(ids[i])[k] by {
            assert(b[16 + 8 * i + k] == ids_le(ids, m)[8 * i + k]);
        }
        lemma_le64_at_of(b, 16 + 8 * i, ids[i]);
    }
    assert(ids_at(b, 16, m) =~= ids);

    assert forall|j: int| 0 <= j < dl implies #[trigger] data_at(b, 24 + 8 * m, dl)[j]
        == data[j] by {
        lemma_data_le_index(data, dl, j);
        assert forall|k: int| 0 <= k < 4 implies #[trigger] b[24 + 8 * m + 4 * j + k]
            == u32_le(data[j])[k] by {
            assert(b[24 + 8 * m + 4 * j + k] == data_le(data, dl)[4 * j + k]);
        }
        lemma_le32_at_of(b, 24 + 8 * m + 4 * j, data[j]);
    }
    assert(data_at(b, 24 + 8 * m, dl) =~= data);
}

/// Round trip at the store level: the saved image of a well-formed
/// store parses back to exactly its `dim`, `ids` and `data`.
pub proof fn lemma_store_round_trip(s: &Abkve)
    requires
        s.wf(),
    ensures
        parse_snapshot(store_bytes(s)) == Some((s.dim as u64, s.ids@, s.data@)),
{
    assert(s.ids@.len() == s.ids.len());
    assert(s.data@.len() == s.data.len());
    lemma_snapshot_round_trip(s.dim as u64, s.ids@, s.data@);
}

/// Two stores with the same dimension, ids and data answer every search
/// alike: after a snapshot round trip, every query and threshold gets
/// the same id and the same score as on the store the image was saved
/// from.
pub proof fn lemma_round_trip_preserves_search(
    s1: &Abkve,
    s2: &Abkve,
    q: Seq<u32>,
    tau: u32,
    r1: crate::store::SearchResult,
    r2: crate::store::SearchResult,
)
    requires
        s1.dim == s2.dim,
        s1.ids@ == s2.ids@,
        s1.data@ == s2.data@,
        crate::search::selection_ok(
            crate::search::unrolled_scores(s1, crate::kernel::normalize_bits(q)),
            s1.ids@,
            tau,
            r1,
        ),
        crate::search::selection_ok(
            crate::search::unrolled_scores(s2, crate::kernel::normalize_bits(q)),
            s2.ids@,
            tau,
            r2,
        ),
    ensures
        r1 == r2,
{
    let qn = crate::kernel::normalize_bits(q);
    assert(crate::search::unrolled_scores(s1, qn) =~= crate::search::unrolled_scores(s2, qn));
    crate::search::lemma_selection_deterministic(
        crate::search::unrolled_scores(s1, qn),
        s1.ids@,
        tau,
        r1,
        r2,
    );
}

} // verus!
