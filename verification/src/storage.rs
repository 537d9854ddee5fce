//! The key-value blob store for vector documents.
//!
//! Documents are held in insertion order with unique keys: storing under
//! an existing key replaces that document in place, deleting removes it,
//! and a key search returns the documents whose key contains the query
//! as a contiguous run of characters. Writing the collection to disk and
//! reading it back are input/output and live outside the library.

use vstd::prelude::*;
use crate::types::VectorDocument;

verus! {

/// `needle` occurs in `hay` as a contiguous run of characters.
pub open spec fn contains_seq(hay: Seq<char>, needle: Seq<char>) -> bool {
    exists|i: int|
        0 <= i && i + needle.len() <= hay.len() && #[trigger] hay.subrange(i, i + needle.len())
            == needle
}

/// The document whose key contains the query participates in a key
/// search.
pub open spec fn doc_matches(d: VectorDocument, q: Seq<char>) -> bool {
    contains_seq(d.key@, q)
}

/// The documents matching a query, in storage order.
pub open spec fn matching_docs(docs: Seq<VectorDocument>, q: Seq<char>) -> Seq<VectorDocument> {
    docs.filter(|d: VectorDocument| doc_matches(d, q))
}

/// The documents a sequence of borrows points at.
pub open spec fn deref_docs(r: Seq<&VectorDocument>) -> Seq<VectorDocument> {
    r.map_values(|d: &VectorDocument| *d)
}

/// Index of the first document whose key reads `key`, or minus one.
pub open spec fn key_index(docs: Seq<VectorDocument>, key: Seq<char>) -> int
    decreases docs.len(),
{
    if docs.len() == 0 {
        -1
    } else if docs[0].key@ == key {
        0
    } else {
        let rest = key_index(docs.subrange(1, docs.len() as int), key);
        if rest < 0 {
            -1
        } else {
            1 + rest
        }
    }
}

/// `key_index` finds exactly the first document with the given key.
pub proof fn lemma_key_index(docs: Seq<VectorDocument>, key: Seq<char>)
    ensures
        -1 <= key_index(docs, key) < docs.len(),
        key_index(docs, key) == -1 ==> forall|i: int|
            0 <= i < docs.len() ==> (#[trigger] docs[i]).key@ != key,
        key_index(docs, key) >= 0 ==> docs[key_index(docs, key)].key@ == key && (forall|i: int|
            0 <= i < key_index(docs, key) ==> (#[trigger] docs[i]).key@ != key),
    decreases docs.len(),
{
    if docs.len() > 0 && docs[0].key@ != key {
        let tail = docs.subrange(1, docs.len() as int);
        lemma_key_index(tail, key);
        assert forall|i: int| 1 <= i < docs.len() implies (#[trigger] docs[i]).key@
            == tail[i - 1].key@ by {
            assert(tail[i - 1] == docs[i]);
        }
    }
}

/// Character-for-character equality of two strings.
fn str_eq(a: &str, b: &str) -> (r: bool)
    ensures
        r == (a@ == b@),
{
    let alen: usize = a.unicode_len();
    let blen: usize = b.unicode_len();
    if alen != blen {
        return false;
    }
    let mut i: usize = 0;
    while i < alen
        invariant
            i <= alen,
            alen == a@.len(),
            alen == b@.len(),
            forall|q: int| 0 <= q < i ==> a@[q] == b@[q],
        decreases alen - i,
    {
        if a.get_char(i) != b.get_char(i) {
            return false;
        }
        i = i + 1;
    }
    proof {
        assert(a@ =~= b@);
    }
    true
}

/// Whether `needle` occurs in `hay` as a contiguous run of characters;
/// exactly `contains_seq` on the two views.
fn str_contains(hay: &str, needle: &str) -> (r: bool)
    ensures
        r == contains_seq(hay@, needle@),
{
    let hlen: usize = hay.unicode_len();
    let nlen: usize = needle.unicode_len();
    if nlen > hlen {
        return false;
    }
    if nlen == 0 {
        proof {
            let l = needle@.len() as int;
            assert(hay@.subrange(0, 0 + l) =~= needle@);
        }
        return true;
    }
    let mut i: usize = 0;
    while i <= hlen - nlen
        invariant
            1 <= nlen <= hlen,
            hlen == hay@.len(),
            nlen == needle@.len(),
            i <= hlen - nlen + 1,
            forall|p: int| 0 <= p < i ==> #[trigger] hay@.subrange(p, p + nlen) != needle@,
        decreases hlen - nlen + 1 - i,
    {
        let mut j: usize = 0;
        let mut same: bool = true;
        while same && j < nlen
            invariant
                j <= nlen,
                i + nlen <= hlen,
                hlen == hay@.len(),
                nlen == needle@.len(),
                same ==> forall|q: int| 0 <= q < j ==> hay@[i + q] == needle@[q],
                !same ==> hay@.subrange(i as int, i + nlen) != needle@,
            decreases nlen - j,
        {
            if hay.get_char(i + j) != needle.get_char(j) {
                proof {
                    assert(hay@.subrange(i as int, i + nlen)[j as int] == hay@[i + j]);
                }
                same = false;
            }
            j = j + 1;
        }
        if same {
            proof {
                assert(hay@.subrange(i as int, i + nlen) =~= needle@);
            }
            return true;
        }
        i = i + 1;
    }
    false
}

/// The blob store: a file path and the documents, keys unique.
pub struct Storage {
    pub path: String,
    pub data: Vec<VectorDocument>,
}

impl Storage {
    /// Keys are unique across the stored documents.
    pub open spec fn wf(&self) -> bool {
        forall|i: int, j: int|
            0 <= i < j < self.data@.len() ==> (#[trigger] self.data@[i]).key@ != (
            #[trigger] self.data@[j]).key@
    }

    /// A fixed liveness probe.
    pub fn working() -> (r: &'static str)
        ensures
            r@ == "Hello, world! from package storage"@,
    {
        "Hello, world! from package storage"
    }

    /// An empty store that will persist at `path`.
    pub fn new(path: &str) -> (s: Storage)
        ensures
            s.path@ == path@,
            s.data@ == Seq::<VectorDocument>::empty(),
            s.wf(),
    {
        Storage { path: path.to_owned(), data: Vec::new() }
    }

    /// Position of the document stored under `key`, if any.
    fn find_key(&self, key: &str) -> (r: Option<usize>)
        ensures
            (match r {
                None => key_index(self.data@, key@) == -1,
                Some(i) => 0 <= i < self.data@.len() && i as int == key_index(self.data@, key@),
            }),
    {
        let n: usize = self.data.len();
        let mut i: usize = 0;
        while i < n
            invariant
                i <= n,
                n == self.data@.len(),
                forall|p: int| 0 <= p < i ==> (#[trigger] self.data@[p]).key@ != key@,
            decreases n - i,
        {
            if str_eq(self.data[i].key.as_str(), key) {
                proof {
                    lemma_key_index(self.data@, key@);
                }
                return Some(i);
            }
            i = i + 1;
        }
        proof {
            lemma_key_index(self.data@, key@);
        }
        None
    }

    /// Store a document: replaces the document with the same key in
    /// place, or appends when the key is new.
    pub fn store_vector(&mut self, document: VectorDocument)
        requires
            old(self).wf(),
        ensures
            final(self).wf(),
            final(self).path@ == old(self).path@,
            ({
                let j = key_index(old(self).data@, document.key@);
                if j >= 0 {
                    final(self).data@ == old(self).data@.update(j, document)
                } else {
                    final(self).data@ == old(self).data@.push(document)
                }
            }),
    {
        proof {
            lemma_key_index(self.data@, document.key@);
        }
        match self.find_key(document.key.as_str()) {
            Some(i) => {
                self.data.set(i, document);
            },
            None => {
                self.data.push(document);
            },
        }
    }

    /// Retrieve the document stored under `key`.
    pub fn retrieve_vector(&self, key: &str) -> (r: Option<&VectorDocument>)
        ensures
            (match r {
                None => key_index(self.data@, key@) == -1,
                Some(d) => key_index(self.data@, key@) >= 0 && *d == self.data@[key_index(
                    self.data@,
                    key@,
                )],
            }),
    {
        match self.find_key(key) {
            Some(i) => Some(&self.data[i]),
            None => None,
        }
    }

    /// Replace the document stored under the given document's key, or
    /// append it when the key is new; the same operation as
    /// `store_vector`.
    pub fn update_vector(&mut self, document: VectorDocument)
        requires
            old(self).wf(),
        ensures
            final(self).wf(),
            final(self).path@ == old(self).path@,
            ({
                let j = key_index(old(self).data@, document.key@);
                if j >= 0 {
                    final(self).data@ == old(self).data@.update(j, document)
                } else {
                    final(self).data@ == old(self).data@.push(document)
                }
            }),
    {
        self.store_vector(document);
    }

    /// Delete the document stored under `key`; a missing key leaves the
    /// store unchanged.
    pub fn delete_document(&mut self, key: &str)
        requires
            old(self).wf(),
        ensures
            final(self).wf(),
            final(self).path@ == old(self).path@,
            ({
                let j = key_index(old(self).data@, key@);
                if j >= 0 {
                    final(self).data@ == old(self).data@.remove(j)
                } else {
                    final(self).data@ == old(self).data@
                }
            }),
    {
        proof {
            lemma_key_index(self.data@, key@);
        }
        let ghost pre = self.data@;
        match self.find_key(key) {
            Some(i) => {
                self.data.remove(i);
                assert forall|a: int, b: int|
                    0 <= a < b < self.data@.len() implies (#[trigger] self.data@[a]).key@ != (
                #[trigger] self.data@[b]).key@ by {
                    let a0 = if a < i as int {
                        a
                    } else {
                        a + 1
                    };
                    let b0 = if b < i as int {
                        b
                    } else {
                        b + 1
                    };
                    assert(self.data@[a] == pre[a0]);
                    assert(self.data@[b] == pre[b0]);
                }
            },
            None => {},
        }
    }

    /// Borrow every stored document, in storage order.
    pub fn list_documents(&self) -> (r: Vec<&VectorDocument>)
        ensures
            r@.len() == self.data@.len(),
            forall|i: int| 0 <= i < r@.len() ==> *(#[trigger] r@[i]) == self.data@[i],
    {
        let n: usize = self.data.len();
        let mut out: Vec<&VectorDocument> = Vec::new();
        let mut i: usize = 0;
        while i < n
            invariant
                i <= n,
                n == self.data@.len(),
                out@.len() == i,
                forall|p: int| 0 <= p < i ==> *(#[trigger] out@[p]) == self.data@[p],
            decreases n - i,
        {
            out.push(&self.data[i]);
            i = i + 1;
        }
        out
    }

    /// Borrow the documents whose key contains `query`, in storage
    /// order.
    pub fn search_documents(&self, query: &str) -> (r: Vec<&VectorDocument>)
        ensures
            deref_docs(r@) == matching_docs(self.data@, query@),
    {
        let n: usize = self.data.len();
        let mut out: Vec<&VectorDocument> = Vec::new();
        let mut i: usize = 0;
        while i < n
            invariant
                i <= n,
                n == self.data@.len(),
                deref_docs(out@) == matching_docs(self.data@.subrange(0, i as int), query@),
            decreases n - i,
        {
            let ghost before = out@;
            let ghost prefix = self.data@.subrange(0, i as int);
            if str_contains(self.data[i].key.as_str(), query) {
                out.push(&self.data[i]);
                proof {
                    assert(deref_docs(out@) =~= deref_docs(before).push(self.data@[i as int]));
                }
            }
            proof {
                lemma_matching_docs_step(self.data@, i as int, query@);
                assert(self.data@.subrange(0, i + 1) =~= prefix.push(self.data@[i as int]));
            }
            i = i + 1;
        }
        proof {
            assert(self.data@.subrange(0, n as int) =~= self.data@);
        }
        out
    }
}

/// Extending the scanned prefix by one document extends its matches by
/// that document exactly when it matches.
proof fn lemma_matching_docs_step(docs: Seq<VectorDocument>, i: int, q: Seq<char>)
    requires
        0 <= i < docs.len(),
    ensures
        matching_docs(docs.subrange(0, i + 1), q) == if doc_matches(docs[i], q) {
            matching_docs(docs.subrange(0, i), q).push(docs[i])
        } else {
            matching_docs(docs.subrange(0, i), q)
        },
{
    let prefix = docs.subrange(0, i);
    let single = seq![docs[i]];
    let pred = |d: VectorDocument| doc_matches(d, q);
    assert(docs.subrange(0, i + 1) =~= prefix + single);
    Seq::filter_distributes_over_add(prefix, single, pred);
    reveal_with_fuel(Seq::filter, 3);
    assert(single.drop_last() =~= Seq::<VectorDocument>::empty());
    if pred(docs[i]) {
        assert(single.filter(pred) =~= seq![docs[i]]);
        assert(prefix.filter(pred) + seq![docs[i]] =~= prefix.filter(pred).push(docs[i]));
    } else {
        assert(single.filter(pred) =~= Seq::<VectorDocument>::empty());
        assert(prefix.filter(pred) + single.filter(pred) =~= prefix.filter(pred));
    }
}

} // verus!
