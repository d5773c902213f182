use vstd::prelude::*;

use crate::distance::dist2;
use crate::error::PipelineError;
use crate::rank::key_lt;
use crate::rank::lemma_insert_ranked_at;
use crate::rank::lemma_rank_prefix_props;
use crate::rank::rank_order;
use crate::rank::rank_prefix;

verus! {

/// `dists[a]` ranks strictly before `dists[b]`: a smaller distance, or an
/// equal distance with the smaller index.
pub open spec fn dist_key_lt(dists: Seq<u128>, a: int, b: int) -> bool {
    dists[a] < dists[b] || (dists[a] == dists[b] && a < b)
}

/// Distance of each document's embedding to the query vector `q`.
pub open spec fn doc_keys(docs: Seq<Document>, q: Seq<i32>) -> Seq<int> {
    Seq::new(docs.len(), |i: int| dist2(docs[i].embedding@, q))
}

/// What a successful query returns: `res` is the prefix of length
/// `min(k, docs.len())` of all documents ranked ascending by squared
/// Euclidean distance to `q`, ties broken by insertion order.
pub open spec fn ranked_results(
    docs: Seq<Document>,
    q: Seq<i32>,
    k: int,
    res: Seq<RankedResult>,
) -> bool {
    let keys = doc_keys(docs, q);
    let ord = rank_order(keys);
    &&& res.len() == if k < docs.len() {
        k
    } else {
        docs.len() as int
    }
    &&& forall|i: int|
        0 <= i < res.len() ==> (#[trigger] res[i]).id as int == ord[i] && res[i].text
            == docs[ord[i]].text && res[i].distance as int == keys[ord[i]]
}

/// One stored item: a text, its embedding, and the store-assigned id,
/// which is the position at which the document was inserted.
#[derive(Debug)]
pub struct Document {
    pub id: usize,
    pub text: String,
    pub embedding: Vec<i32>,
}

/// One entry of a ranked query answer.
#[derive(Debug)]
pub struct RankedResult {
    /// Id of the matching document (its insertion position).
    pub id: usize,
    /// Text of the matching document.
    pub text: String,
    /// Squared Euclidean distance between the query vector and the
    /// document's embedding.
    pub distance: u128,
}

/// Holds (embedding, text, id) triples of one fixed dimensionality and
/// answers nearest-neighbor queries by exhaustive scan.
pub struct VectorStore {
    dim: usize,
    docs: Vec<Document>,
}

impl VectorStore {
    /// The fixed dimensionality every stored or queried vector must have.
    pub closed spec fn spec_dim(self) -> usize {
        self.dim
    }

    /// The stored documents, in insertion order.
    pub closed spec fn spec_docs(self) -> Seq<Document> {
        self.docs@
    }

    /// Every stored embedding has the store's dimensionality, and every
    /// document's id is its insertion position.
    pub open spec fn wf(self) -> bool {
        forall|i: int|
            0 <= i < self.spec_docs().len() ==> (#[trigger] self.spec_docs()[i]).embedding@.len()
                == self.spec_dim() && self.spec_docs()[i].id == i
    }

    /// Creates an empty store scoped to vectors of length `dim`.
    pub fn new(dim: usize) -> (s: Self)
        ensures
            s.wf(),
            s.spec_dim() == dim,
            s.spec_docs().len() == 0,
    {
        VectorStore { dim, docs: Vec::new() }
    }

    /// The store's fixed dimensionality.
    pub fn dim(&self) -> (d: usize)
        ensures
            d == self.spec_dim(),
    {
        self.dim
    }

    /// How many documents are stored.
    pub fn len(&self) -> (n: usize)
        ensures
            n == self.spec_docs().len(),
    {
        self.docs.len()
    }

    /// Appends a document and returns its id. Fails with a schema error,
    /// leaving the store unchanged, exactly when the embedding's length
    /// differs from the store's dimensionality. Duplicates are permitted:
    /// each insertion yields a distinct document.
    pub fn insert(&mut self, text: String, embedding: Vec<i32>) -> (r: Result<
        usize,
        PipelineError,
    >)
        requires
            old(self).wf(),
        ensures
            final(self).wf(),
            final(self).spec_dim() == old(self).spec_dim(),
            match r {
                Ok(id) => {
                    &&& embedding@.len() == old(self).spec_dim()
                    &&& id == old(self).spec_docs().len()
                    &&& final(self).spec_docs() == old(self).spec_docs().push(
                        (Document { id, text, embedding }),
                    )
                },
                Err(e) => {
                    &&& embedding@.len() != old(self).spec_dim()
                    &&& e == (PipelineError::Schema {
                        expected: old(self).spec_dim(),
                        actual: embedding.len(),
                    })
                    &&& *final(self) == *old(self)
                },
            },
    {
        if embedding.len() != self.dim {
            return Err(PipelineError::Schema { expected: self.dim, actual: embedding.len() });
        }
        let id = self.docs.len();
        self.docs.push(Document { id, text, embedding });
        proof {
            assert forall|i: int| 0 <= i < self.spec_docs().len() implies (#[trigger] self.spec_docs()[i]).embedding@.len()
                == self.spec_dim() && self.spec_docs()[i].id == i by {
                if i < old(self).spec_docs().len() {
                    assert(old(self).spec_docs()[i].embedding@.len() == old(self).spec_dim());
                }
            }
        }
        Ok(id)
    }

    /// Ranks every stored document by ascending squared Euclidean distance
    /// to `q`, ties broken by insertion order, and returns the first
    /// `min(k, len)` of them. Fails with a schema error exactly when `q`'s
    /// length differs from the store's dimensionality. An empty store
    /// yields an empty list, and a `k` beyond the stored count yields all
    /// documents: neither is an error.
    pub fn query(&self, q: &Vec<i32>, k: usize) -> (r: Result<Vec<RankedResult>, PipelineError>)
        requires
            self.wf(),
        ensures
            match r {
                Ok(res) => q@.len() == self.spec_dim() && ranked_results(
                    self.spec_docs(),
                    q@,
                    k as int,
                    res@,
                ),
                Err(e) => {
                    &&& q@.len() != self.spec_dim()
                    &&& e == (PipelineError::Schema { expected: self.spec_dim(), actual: q.len() })
                },
            },
    {
        if q.len() != self.dim {
            return Err(PipelineError::Schema { expected: self.dim, actual: q.len() });
        }
        let ghost keys = doc_keys(self.spec_docs(), q@);
        let n = self.docs.len();

        let mut dists: Vec<u128> = Vec::new();
        let mut i: usize = 0;
        while i < n
            invariant
                self.wf(),
                q@.len() == self.spec_dim(),
                n == self.spec_docs().len(),
                keys == doc_keys(self.spec_docs(), q@),
                i <= n,
                dists@.len() == i,
                forall|t: int| 0 <= t < i ==> (#[trigger] dists@[t]) as int == keys[t],
            decreases n - i,
        {
            let d = crate::distance::squared_distance(&self.docs[i].embedding, q);
            dists.push(d);
            i = i + 1;
        }

        let mut order: Vec<usize> = Vec::new();
        let mut j: usize = 0;
        while j < n
            invariant
                n == self.spec_docs().len(),
                keys == doc_keys(self.spec_docs(), q@),
                keys.len() == n,
                dists@.len() == n,
                forall|t: int| 0 <= t < n ==> (#[trigger] dists@[t]) as int == keys[t],
                j <= n,
                order@.len() == j,
                forall|t: int|
                    0 <= t < j ==> (#[trigger] order@[t]) as int == rank_prefix(keys, j as int)[t],
            decreases n - j,
        {
            let ghost prev_spec = rank_prefix(keys, j as int);
            proof {
                lemma_rank_prefix_props(keys, j as int);
            }
            let p = find_rank_pos(&dists, &order, j);
            let ghost prev_ord = order@;
            order.insert(p, j);
            proof {
                assert forall|t: int| 0 <= t < p implies !key_lt(keys, j as int, #[trigger] prev_spec[t]) by {
                    assert(!dist_key_lt(dists@, j as int, prev_ord[t] as int));
                    assert((dists@[prev_spec[t]]) as int == keys[prev_spec[t]]);
                }
                if (p as int) < prev_spec.len() {
                    assert(dist_key_lt(dists@, j as int, prev_ord[p as int] as int));
                    assert((dists@[prev_spec[p as int]]) as int == keys[prev_spec[p as int]]);
                    assert(key_lt(keys, j as int, prev_spec[p as int]));
                }
                lemma_insert_ranked_at(keys, prev_spec, j as int, p as int);
                prev_spec.insert_ensures(p as int, j as int);
                prev_ord.insert_ensures(p as int, j as usize);
                assert(rank_prefix(keys, j as int + 1) == prev_spec.insert(p as int, j as int));
                assert forall|t: int|
                    0 <= t < j + 1 implies (#[trigger] order@[t]) as int == rank_prefix(
                    keys,
                    j as int + 1,
                )[t] by {
                    if t < p {
                        assert(order@[t] == prev_ord[t]);
                        assert(prev_spec.insert(p as int, j as int)[t] == prev_spec[t]);
                    } else if t == p {
                        assert(order@[t] == j as usize);
                        assert(prev_spec.insert(p as int, j as int)[t] == j as int);
                    } else {
                        assert(order@[t] == prev_ord[t - 1]);
                        assert(prev_spec.insert(p as int, j as int)[t] == prev_spec[t - 1]);
                    }
                }
            }
            j = j + 1;
        }

        proof {
            lemma_rank_prefix_props(keys, n as int);
            assert(rank_order(keys) == rank_prefix(keys, n as int));
        }
        let kk = if k < n {
            k
        } else {
            n
        };
        let mut res: Vec<RankedResult> = Vec::new();
        let mut t: usize = 0;
        while t < kk
            invariant
                self.wf(),
                q@.len() == self.spec_dim(),
                n == self.spec_docs().len(),
                keys == doc_keys(self.spec_docs(), q@),
                keys.len() == n,
                dists@.len() == n,
                forall|u: int| 0 <= u < n ==> (#[trigger] dists@[u]) as int == keys[u],
                order@.len() == n,
                forall|u: int| 0 <= u < n ==> (#[trigger] order@[u]) as int == rank_order(keys)[u],
                forall|u: int| 0 <= u < n ==> 0 <= #[trigger] rank_order(keys)[u] < n,
                kk == if (k as int) < n as int {
                    k as int
                } else {
                    n as int
                },
                t <= kk,
                res@.len() == t,
                forall|u: int|
                    0 <= u < t ==> (#[trigger] res@[u]).id as int == rank_order(keys)[u] && res@[u].text
                        == self.spec_docs()[rank_order(keys)[u]].text && (res@[u].distance) as int
                        == keys[rank_order(keys)[u]],
            decreases kk - t,
        {
            let idx = order[t];
            let text = self.docs[idx].text.clone();
            let dv = dists[idx];
            res.push(RankedResult { id: idx, text, distance: dv });
            t = t + 1;
        }
        Ok(res)
    }
}

/// Position at which `j` belongs in the partial ranking `order`: the
/// first entry before which `j` ranks, or the end.
fn find_rank_pos(dists: &Vec<u128>, order: &Vec<usize>, j: usize) -> (p: usize)
    requires
        (j as int) < dists@.len(),
        forall|t: int| 0 <= t < order@.len() ==> (#[trigger] order@[t]) < dists@.len(),
    ensures
        p <= order@.len(),
        forall|t: int| 0 <= t < p ==> !dist_key_lt(dists@, j as int, (#[trigger] order@[t]) as int),
        (p as int) < order@.len() ==> dist_key_lt(dists@, j as int, order@[p as int] as int),
{
    let n = order.len();
    let mut p: usize = 0;
    while p < n
        invariant
            n == order@.len(),
            (j as int) < dists@.len(),
            forall|t: int| 0 <= t < order@.len() ==> (#[trigger] order@[t]) < dists@.len(),
            p <= n,
            forall|t: int|
                0 <= t < p ==> !dist_key_lt(dists@, j as int, (#[trigger] order@[t]) as int),
        decreases n - p,
    {
        let o = order[p];
        if dists[j] < dists[o] {
            return p;
        }
        if dists[j] == dists[o] && j < o {
            return p;
        }
        p = p + 1;
    }
    p
}

} // verus!
