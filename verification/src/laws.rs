use vstd::prelude::*;
use vstd::seq_lib::group_to_multiset_ensures;

use crate::distance::dist2;
use crate::distance::lemma_dist2_nonneg;
use crate::distance::lemma_dist2_self_zero;
use crate::rank::key_lt;
use crate::rank::lemma_rank_order_props;
use crate::rank::rank_order;
use crate::store::doc_keys;
use crate::store::ranked_results;
use crate::store::Document;
use crate::store::RankedResult;

verus! {

/// Some result entry reports the document with id `d`.
pub open spec fn res_contains_id(res: Seq<RankedResult>, d: int) -> bool {
    exists|i: int| 0 <= i < res.len() && (#[trigger] res[i]).id as int == d
}

/// Every entry of a query's answer reports a document that is really in
/// the store: a valid id, that document's text, and the true squared
/// Euclidean distance of its embedding to the query vector.
pub proof fn lemma_results_faithful(docs: Seq<Document>, q: Seq<i32>, k: int, res: Seq<
    RankedResult,
>)
    requires
        ranked_results(docs, q, k, res),
    ensures
        forall|i: int|
            0 <= i < res.len() ==> (#[trigger] res[i]).id < docs.len() && res[i].text
                == docs[res[i].id as int].text && res[i].distance as int == dist2(
                docs[res[i].id as int].embedding@,
                q,
            ),
{
    lemma_rank_order_props(doc_keys(docs, q));
}

/// A query's distances never decrease along the ranked list, whatever `k`
/// was asked for.
pub proof fn lemma_results_sorted(docs: Seq<Document>, q: Seq<i32>, k: int, res: Seq<
    RankedResult,
>)
    requires
        ranked_results(docs, q, k, res),
    ensures
        forall|p: int, t: int|
            0 <= p < t < res.len() ==> (#[trigger] res[p]).distance <= (#[trigger] res[t]).distance,
        forall|p: int, t: int| 0 <= p < t < res.len() ==> res[p].id != res[t].id,
{
    let keys = doc_keys(docs, q);
    let ord = rank_order(keys);
    lemma_rank_order_props(keys);
    assert forall|p: int, t: int| 0 <= p < t < res.len() implies (#[trigger] res[p]).distance
        <= (#[trigger] res[t]).distance && res[p].id != res[t].id by {
        assert(key_lt(keys, ord[p], ord[t]));
    }
}

/// With `k` at least the stored count, a query returns every document
/// exactly once: as many results as documents, no id repeated, every id
/// present, ranked ascending by distance.
pub proof fn lemma_query_returns_all(docs: Seq<Document>, q: Seq<i32>, k: int, res: Seq<
    RankedResult,
>)
    requires
        ranked_results(docs, q, k, res),
        k >= docs.len(),
    ensures
        res.len() == docs.len(),
        forall|d: int| 0 <= d < docs.len() ==> #[trigger] res_contains_id(res, d),
        forall|p: int, t: int|
            0 <= p < t < res.len() ==> (#[trigger] res[p]).distance <= (#[trigger] res[t]).distance,
        forall|p: int, t: int| 0 <= p < t < res.len() ==> res[p].id != res[t].id,
{
    broadcast use group_to_multiset_ensures;

    let keys = doc_keys(docs, q);
    let ord = rank_order(keys);
    lemma_rank_order_props(keys);
    lemma_results_sorted(docs, q, k, res);
    assert forall|d: int| 0 <= d < docs.len() implies #[trigger] res_contains_id(res, d) by {
        assert(ord.to_multiset().count(d) == 1);
        assert(ord.contains(d));
        let i = choose|i: int| 0 <= i < ord.len() && ord[i] == d;
        assert(res[i].id as int == d);
    }
}

/// Querying with a vector that equals a stored embedding puts a zero
/// distance first: the metric's identity value.
pub proof fn lemma_exact_match_first(
    docs: Seq<Document>,
    q: Seq<i32>,
    k: int,
    res: Seq<RankedResult>,
    d: int,
)
    requires
        ranked_results(docs, q, k, res),
        0 <= d < docs.len(),
        docs[d].embedding@ == q,
        k >= 1,
    ensures
        res.len() >= 1,
        res[0].distance == 0,
{
    broadcast use group_to_multiset_ensures;

    let keys = doc_keys(docs, q);
    let ord = rank_order(keys);
    lemma_rank_order_props(keys);
    lemma_dist2_self_zero(q);
    assert(keys[d] == 0);
    assert(ord.to_multiset().count(d) == 1);
    assert(ord.contains(d));
    let p = choose|p: int| 0 <= p < ord.len() && ord[p] == d;
    if p > 0 {
        assert(key_lt(keys, ord[0], ord[p]));
    }
    lemma_dist2_nonneg(docs[ord[0]].embedding@, q);
    assert(keys[ord[0]] == 0);
    assert(res[0].distance as int == keys[ord[0]]);
}

/// Querying an empty store yields an empty ranked list rather than a
/// failure, whatever valid vector and `k` are asked.
pub proof fn lemma_empty_store_query(docs: Seq<Document>, q: Seq<i32>, k: int, res: Seq<
    RankedResult,
>)
    requires
        ranked_results(docs, q, k, res),
        docs.len() == 0,
        k >= 0,
    ensures
        res.len() == 0,
{
}

} // verus!
