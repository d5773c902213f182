use vstd::prelude::*;

use crate::error::PipelineError;
use crate::store::Document;
use crate::store::VectorStore;

verus! {

/// Index of the first batch item whose vector's length differs from
/// `dim`, or the batch length when every item fits.
pub open spec fn first_mismatch(items: Seq<(String, Vec<i32>)>, dim: int) -> int
    decreases items.len(),
{
    if items.len() == 0 {
        0
    } else if items[0].1@.len() != dim {
        0
    } else {
        1 + first_mismatch(items.drop_first(), dim)
    }
}

pub proof fn lemma_first_mismatch_props(items: Seq<(String, Vec<i32>)>, dim: int)
    ensures
        0 <= first_mismatch(items, dim) <= items.len(),
        forall|t: int|
            0 <= t < first_mismatch(items, dim) ==> (#[trigger] items[t]).1@.len() == dim,
        first_mismatch(items, dim) < items.len() ==> items[first_mismatch(items, dim)].1@.len()
            != dim,
    decreases items.len(),
{
    if items.len() > 0 && items[0].1@.len() == dim {
        lemma_first_mismatch_props(items.drop_first(), dim);
        let rest = items.drop_first();
        assert forall|t: int|
            0 <= t < first_mismatch(items, dim) implies (#[trigger] items[t]).1@.len() == dim by {
            if t > 0 {
                assert(rest[t - 1] == items[t]);
            }
        }
    }
}

/// `post` is `pre` with the first `m` batch items appended in order: each
/// became a fresh document whose id is its insertion position.
pub open spec fn loads_prefix(
    pre: Seq<Document>,
    post: Seq<Document>,
    items: Seq<(String, Vec<i32>)>,
    m: int,
) -> bool {
    &&& post.len() == pre.len() + m
    &&& forall|i: int| 0 <= i < pre.len() ==> post[i] == pre[i]
    &&& forall|i: int|
        0 <= i < m ==> (#[trigger] post[pre.len() + i]).id == pre.len() + i && post[pre.len()
            + i].text == items[i].0 && post[pre.len() + i].embedding@ == items[i].1@
}

/// An exact copy of an embedding vector.
fn clone_embedding(v: &Vec<i32>) -> (r: Vec<i32>)
    ensures
        r@ == v@,
{
    let r = v.clone();
    proof {
        assert forall|i: int| 0 <= i < v@.len() implies r@[i] == v@[i] by {
            assert(cloned::<i32>(v@[i], r@[i]));
        }
        assert(r@ =~= v@);
    }
    r
}

/// Appends the already-embedded batch `items` to the store in order.
/// Every item before the first one whose vector does not fit the store's
/// dimensionality is inserted; at that item loading stops and its schema
/// error is propagated. When every item fits, the count of inserted
/// documents is returned. There is no deduplication: a repeated batch is
/// appended again in full.
pub fn load_embedded(store: &mut VectorStore, items: &Vec<(String, Vec<i32>)>) -> (r: Result<
    usize,
    PipelineError,
>)
    requires
        old(store).wf(),
    ensures
        final(store).wf(),
        final(store).spec_dim() == old(store).spec_dim(),
        ({
            let m = first_mismatch(items@, old(store).spec_dim() as int);
            &&& loads_prefix(old(store).spec_docs(), final(store).spec_docs(), items@, m)
            &&& match r {
                Ok(cnt) => m == items@.len() && cnt == items@.len(),
                Err(e) => m < items@.len() && e == (PipelineError::Schema {
                    expected: old(store).spec_dim(),
                    actual: items@[m].1.len(),
                }),
            }
        }),
{
    let ghost dim = old(store).spec_dim() as int;
    let n = items.len();
    let mut count: usize = 0;
    while count < n
        invariant
            old(store).wf(),
            store.wf(),
            store.spec_dim() == old(store).spec_dim(),
            dim == old(store).spec_dim() as int,
            n == items@.len(),
            count <= n,
            forall|t: int| 0 <= t < count ==> (#[trigger] items@[t]).1@.len() == dim,
            loads_prefix(old(store).spec_docs(), store.spec_docs(), items@, count as int),
        decreases n - count,
    {
        let text = items[count].0.clone();
        let embedding = clone_embedding(&items[count].1);
        let ghost prev_docs = store.spec_docs();
        match store.insert(text, embedding) {
            Ok(_) => {
                proof {
                    let base = old(store).spec_docs().len();
                    assert forall|i: int|
                        0 <= i < count + 1 implies (#[trigger] store.spec_docs()[base + i]).id
                        == base + i && store.spec_docs()[base + i].text == items@[i].0
                        && store.spec_docs()[base + i].embedding@ == items@[i].1@ by {
                        if i < count {
                            assert(store.spec_docs()[base + i] == prev_docs[base + i]);
                        }
                    }
                }
                count = count + 1;
            },
            Err(e) => {
                proof {
                    lemma_first_mismatch_props(items@, dim);
                    assert(first_mismatch(items@, dim) == count as int) by {
                        let m = first_mismatch(items@, dim);
                        if m < count as int {
                            assert(items@[m].1@.len() == dim);
                        }
                        if m > count as int {
                            assert(items@[count as int].1@.len() == dim);
                        }
                    }
                }
                return Err(e);
            },
        }
    }
    proof {
        lemma_first_mismatch_props(items@, dim);
        assert(first_mismatch(items@, dim) == count as int) by {
            let m = first_mismatch(items@, dim);
            if m < count as int {
                assert(items@[m].1@.len() == dim);
            }
        }
    }
    Ok(count)
}

/// Corpus loading is deliberately not idempotent: the store has no
/// deduplication key, so loading the same fitting batch twice appends
/// every item twice, and each text then appears at two distinct ids.
pub proof fn lemma_load_twice_duplicates(
    d0: Seq<Document>,
    d1: Seq<Document>,
    d2: Seq<Document>,
    items: Seq<(String, Vec<i32>)>,
)
    requires
        loads_prefix(d0, d1, items, items.len() as int),
        loads_prefix(d1, d2, items, items.len() as int),
    ensures
        d1.len() == d0.len() + items.len(),
        d2.len() == d0.len() + 2 * items.len(),
        forall|i: int|
            0 <= i < items.len() ==> (#[trigger] d2[d0.len() + i]).text == items[i].0
                && d2[d0.len() + items.len() + i].text == items[i].0,
{
    assert forall|i: int|
        0 <= i < items.len() implies (#[trigger] d2[d0.len() + i]).text == items[i].0 && d2[d0.len()
        + items.len() + i].text == items[i].0 by {
        assert(d2[d0.len() + i] == d1[d0.len() + i]);
        assert(d2[d1.len() + i].text == items[i].0);
    }
}

} // verus!
