use vstd::prelude::*;
use vstd::seq_lib::group_to_multiset_ensures;
use vstd::seq_lib::lemma_multiset_commutative;
use vstd::multiset::group_multiset_axioms;
use vstd::multiset::Multiset;

verus! {

/// `keys[a]` ranks strictly before `keys[b]`: a smaller key, or an equal
/// key with the smaller index. Ties are thus broken by insertion order.
pub open spec fn key_lt(keys: Seq<int>, a: int, b: int) -> bool {
    keys[a] < keys[b] || (keys[a] == keys[b] && a < b)
}

/// The index sequence `ord` is ranked: ascending key, ties by index.
pub open spec fn sorted_order(keys: Seq<int>, ord: Seq<int>) -> bool {
    forall|p: int, q: int|
        0 <= p < q < ord.len() ==> key_lt(keys, #[trigger] ord[p], #[trigger] ord[q])
}

/// Inserts index `j` into the ranked index sequence `ord`, after every
/// entry that ranks before `j`.
pub open spec fn insert_ranked(keys: Seq<int>, ord: Seq<int>, j: int) -> Seq<int>
    decreases ord.len(),
{
    if ord.len() == 0 {
        seq![j]
    } else if key_lt(keys, j, ord[0]) {
        seq![j] + ord
    } else {
        seq![ord[0]] + insert_ranked(keys, ord.drop_first(), j)
    }
}

/// The ranking of the indices `0 .. n` by ascending key.
pub open spec fn rank_prefix(keys: Seq<int>, n: int) -> Seq<int>
    decreases n,
{
    if n <= 0 {
        Seq::empty()
    } else {
        insert_ranked(keys, rank_prefix(keys, n - 1), n - 1)
    }
}

/// The ranking of all indices of `keys`: every index exactly once,
/// ascending by key, ties broken by index.
pub open spec fn rank_order(keys: Seq<int>) -> Seq<int> {
    rank_prefix(keys, keys.len() as int)
}

pub proof fn lemma_insert_ranked_len(keys: Seq<int>, ord: Seq<int>, j: int)
    ensures
        insert_ranked(keys, ord, j).len() == ord.len() + 1,
    decreases ord.len(),
{
    if ord.len() != 0 && !key_lt(keys, j, ord[0]) {
        lemma_insert_ranked_len(keys, ord.drop_first(), j);
    }
}

pub proof fn lemma_insert_ranked_multiset(keys: Seq<int>, ord: Seq<int>, j: int)
    ensures
        insert_ranked(keys, ord, j).to_multiset() == ord.to_multiset().insert(j),
    decreases ord.len(),
{
    broadcast use group_to_multiset_ensures;
    broadcast use group_multiset_axioms;

    if ord.len() == 0 {
        assert(seq![j] =~= Seq::empty().push(j));
        assert(insert_ranked(keys, ord, j).to_multiset() =~= ord.to_multiset().insert(j));
    } else if key_lt(keys, j, ord[0]) {
        lemma_multiset_commutative(seq![j], ord);
        assert(seq![j] =~= Seq::empty().push(j));
        assert((seq![j] + ord).to_multiset() =~= ord.to_multiset().insert(j));
    } else {
        let rest = ord.drop_first();
        lemma_insert_ranked_multiset(keys, rest, j);
        lemma_multiset_commutative(seq![ord[0]], insert_ranked(keys, rest, j));
        lemma_multiset_commutative(seq![ord[0]], rest);
        assert(seq![ord[0]] + rest =~= ord);
        assert(seq![ord[0]] =~= Seq::empty().push(ord[0]));
        assert((seq![ord[0]] + insert_ranked(keys, rest, j)).to_multiset()
            =~= ord.to_multiset().insert(j));
    }
}

/// The entries of the result are those of `ord` plus `j`.
pub proof fn lemma_insert_ranked_contains(keys: Seq<int>, ord: Seq<int>, j: int)
    ensures
        forall|x: int|
            #[trigger] insert_ranked(keys, ord, j).contains(x) <==> (ord.contains(x) || x == j),
{
    broadcast use group_to_multiset_ensures;
    broadcast use group_multiset_axioms;

    lemma_insert_ranked_multiset(keys, ord, j);
    let res = insert_ranked(keys, ord, j);
    assert forall|x: int| #[trigger] res.contains(x) <==> (ord.contains(x) || x == j) by {
        assert(res.contains(x) <==> res.to_multiset().count(x) > 0);
        assert(ord.contains(x) <==> ord.to_multiset().count(x) > 0);
        assert(res.to_multiset().count(x) == ord.to_multiset().insert(j).count(x));
    }
}

pub proof fn lemma_insert_ranked_sorted(keys: Seq<int>, ord: Seq<int>, j: int)
    requires
        sorted_order(keys, ord),
        !ord.contains(j),
    ensures
        sorted_order(keys, insert_ranked(keys, ord, j)),
    decreases ord.len(),
{
    let res = insert_ranked(keys, ord, j);
    if ord.len() == 0 {
        assert(sorted_order(keys, res));
    } else if key_lt(keys, j, ord[0]) {
        assert forall|p: int, q: int| 0 <= p < q < res.len() implies key_lt(
            keys,
            res[p],
            res[q],
        ) by {
            if p == 0 && q > 1 {
                assert(key_lt(keys, ord[0], ord[q - 1]));
            } else if p > 0 {
                assert(key_lt(keys, ord[p - 1], ord[q - 1]));
            }
        }
    } else {
        let rest = ord.drop_first();
        assert(ord.contains(ord[0]));
        assert(sorted_order(keys, rest)) by {
            assert forall|p: int, q: int| 0 <= p < q < rest.len() implies key_lt(
                keys,
                rest[p],
                rest[q],
            ) by {
                assert(key_lt(keys, ord[p + 1], ord[q + 1]));
            }
        }
        assert(!rest.contains(j)) by {
            if rest.contains(j) {
                let t = choose|t: int| 0 <= t < rest.len() && rest[t] == j;
                assert(ord[t + 1] == j);
                assert(ord.contains(j));
            }
        }
        lemma_insert_ranked_sorted(keys, rest, j);
        lemma_insert_ranked_contains(keys, rest, j);
        let ri = insert_ranked(keys, rest, j);
        // ord[0] ranks before j (keys are not less and indices differ), and
        // before every entry of rest, hence before every entry of ri.
        assert(key_lt(keys, ord[0], j));
        assert forall|p: int, q: int| 0 <= p < q < res.len() implies key_lt(
            keys,
            res[p],
            res[q],
        ) by {
            if p == 0 {
                let x = res[q];
                assert(ri.contains(x)) by {
                    assert(ri[q - 1] == x);
                }
                if x != j {
                    let t = choose|t: int| 0 <= t < rest.len() && rest[t] == x;
                    assert(key_lt(keys, ord[0], ord[t + 1]));
                }
            } else {
                assert(key_lt(keys, ri[p - 1], ri[q - 1]));
            }
        }
    }
}

/// Inserting at the first position whose entry ranks after `j` is what
/// `insert_ranked` does.
pub proof fn lemma_insert_ranked_at(keys: Seq<int>, ord: Seq<int>, j: int, p: int)
    requires
        0 <= p <= ord.len(),
        forall|t: int| 0 <= t < p ==> !key_lt(keys, j, #[trigger] ord[t]),
        p < ord.len() ==> key_lt(keys, j, ord[p]),
    ensures
        insert_ranked(keys, ord, j) == ord.insert(p, j),
    decreases ord.len(),
{
    if ord.len() == 0 {
        assert(insert_ranked(keys, ord, j) =~= ord.insert(0, j));
    } else if key_lt(keys, j, ord[0]) {
        assert(p == 0) by {
            if p > 0 {
                assert(!key_lt(keys, j, ord[0]));
            }
        }
        assert(seq![j] + ord =~= ord.insert(0, j));
    } else {
        let rest = ord.drop_first();
        assert(p >= 1);
        assert forall|t: int| 0 <= t < p - 1 implies !key_lt(keys, j, #[trigger] rest[t]) by {
            assert(!key_lt(keys, j, ord[t + 1]));
        }
        lemma_insert_ranked_at(keys, rest, j, p - 1);
        assert(seq![ord[0]] + rest.insert(p - 1, j) =~= ord.insert(p, j));
    }
}

/// The full ranking holds every index of `keys` exactly once and is
/// sorted ascending by key, ties broken by index.
pub proof fn lemma_rank_prefix_props(keys: Seq<int>, n: int)
    requires
        0 <= n,
    ensures
        rank_prefix(keys, n).len() == n,
        forall|v: int|
            #[trigger] rank_prefix(keys, n).to_multiset().count(v) == if 0 <= v < n {
                1nat
            } else {
                0nat
            },
        sorted_order(keys, rank_prefix(keys, n)),
        forall|p: int| 0 <= p < n ==> 0 <= #[trigger] rank_prefix(keys, n)[p] < n,
    decreases n,
{
    broadcast use group_to_multiset_ensures;
    broadcast use group_multiset_axioms;

    if n <= 0 {
        assert(rank_prefix(keys, n).to_multiset() =~= Multiset::<int>::empty());
    } else {
        lemma_rank_prefix_props(keys, n - 1);
        let prev = rank_prefix(keys, n - 1);
        assert(!prev.contains(n - 1)) by {
            assert(prev.to_multiset().count(n - 1) == 0);
        }
        lemma_insert_ranked_len(keys, prev, n - 1);
        lemma_insert_ranked_multiset(keys, prev, n - 1);
        lemma_insert_ranked_sorted(keys, prev, n - 1);
        let cur = rank_prefix(keys, n);
        assert forall|p: int| 0 <= p < n implies 0 <= #[trigger] cur[p] < n by {
            assert(cur.contains(cur[p]));
            assert(cur.to_multiset().count(cur[p]) > 0);
        }
    }
}

/// Every position of the full ranking holds a valid index of `keys`.
pub proof fn lemma_rank_order_props(keys: Seq<int>)
    ensures
        rank_order(keys).len() == keys.len(),
        forall|v: int|
            #[trigger] rank_order(keys).to_multiset().count(v) == if 0 <= v < keys.len() {
                1nat
            } else {
                0nat
            },
        sorted_order(keys, rank_order(keys)),
        forall|p: int|
            0 <= p < keys.len() ==> 0 <= #[trigger] rank_order(keys)[p] < keys.len(),
{
    lemma_rank_prefix_props(keys, keys.len() as int);
}

} // verus!
