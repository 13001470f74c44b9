//! Stable ordering, largest key first.

use vstd::prelude::*;

verus! {

/// `i` goes before `j`: its key is larger, or as large and it came first.
pub open spec fn precedes(keys: Seq<i128>, i: int, j: int) -> bool {
    keys[i] > keys[j] || (keys[i] == keys[j] && i < j)
}

/// `order` names each place of `keys` once, largest key first, equal keys in
/// their old order.
pub open spec fn is_ranking(keys: Seq<i128>, order: Seq<int>) -> bool {
    &&& order.len() == keys.len()
    &&& forall|k: int| 0 <= k < order.len() ==> 0 <= #[trigger] order[k] < keys.len()
    &&& forall|a: int, b: int|
        0 <= a < b < order.len() ==> precedes(keys, #[trigger] order[a], #[trigger] order[b])
}

/// `out` is `items` in the given order.
pub open spec fn is_reordered<T>(items: Seq<T>, order: Seq<int>, out: Seq<T>) -> bool {
    &&& out.len() == order.len()
    &&& forall|k: int| 0 <= k < order.len() ==> #[trigger] out[k] == items[order[k]]
}

/// `out` is `items` with the largest key first and equal keys in their old order.
pub open spec fn is_ranked<T>(items: Seq<T>, keys: Seq<i128>, out: Seq<T>) -> bool {
    exists|order: Seq<int>| #[trigger] is_ranking(keys, order) && is_reordered(items, order, out)
}

/// The items with the largest key first and equal keys in their old order.
pub fn rank_by<T>(items: Vec<T>, keys: &Vec<i128>) -> (r: Vec<T>)
    requires
        items@.len() == keys@.len(),
    ensures
        is_ranked(items@, keys@, r@),
        r@.len() == items@.len(),
{
    let ghost all = items@;
    let mut rest = items;
    let mut out: Vec<T> = Vec::new();
    let mut out_keys: Vec<i128> = Vec::new();
    let ghost mut order: Seq<int> = Seq::empty();
    while rest.len() > 0
        invariant
            all.len() == keys@.len(),
            rest@ == all.take(rest@.len() as int),
            rest@.len() + order.len() == all.len(),
            out@.len() == order.len(),
            out_keys@.len() == order.len(),
            forall|k: int|
                0 <= k < order.len() ==> rest@.len() <= #[trigger] order[k] < all.len() && out@[k]
                    == all[order[k]] && out_keys@[k] == keys@[order[k]],
            forall|a: int, b: int|
                0 <= a < b < order.len() ==> precedes(keys@, #[trigger] order[a], #[trigger] order[b]),
        decreases rest@.len(),
    {
        let i: usize = rest.len() - 1;
        let ghost before = rest@;
        let item = rest.pop().unwrap();
        let key: i128 = keys[i];
        assert(rest@ =~= all.take(i as int));
        assert(item == all[i as int]);
        let mut p: usize = 0;
        while p < out_keys.len() && out_keys[p] > key
            invariant
                p <= out_keys@.len(),
                forall|q: int| 0 <= q < p ==> out_keys@[q] > key,
            decreases out_keys@.len() - p,
        {
            p += 1;
        }
        let ghost old_order = order;
        let ghost old_out = out@;
        let ghost old_keys = out_keys@;
        out.insert(p, item);
        out_keys.insert(p, key);
        proof {
            order = old_order.insert(p as int, i as int);
            assert forall|k: int| 0 <= k < order.len() implies rest@.len() <= #[trigger] order[k]
                < all.len() && out@[k] == all[order[k]] && out_keys@[k] == keys@[order[k]] by {
                if k < p {
                    assert(order[k] == old_order[k]);
                } else if k > p {
                    assert(order[k] == old_order[k - 1]);
                }
            }
            assert forall|a: int, b: int| 0 <= a < b < order.len() implies precedes(
                keys@,
                #[trigger] order[a],
                #[trigger] order[b],
            ) by {
                let x = if a < p {
                    a
                } else {
                    a - 1
                };
                let y = if b < p {
                    b
                } else {
                    b - 1
                };
                if a == p {
                    assert(order[b] == old_order[y]);
                    if y > p {
                        assert(precedes(keys@, old_order[p as int], old_order[y]));
                    }
                    assert(old_keys[p as int] == keys@[old_order[p as int]]);
                } else if b == p {
                    assert(order[a] == old_order[a]);
                    assert(old_keys[a] == keys@[old_order[a]]);
                } else {
                    assert(order[a] == old_order[x] && order[b] == old_order[y]);
                }
            }
        }
    }
    proof {
        assert(is_ranking(keys@, order));
        assert(is_reordered(all, order, out@));
    }
    out
}

/// A ranking keeps every item: the ranked list is a rearrangement.
pub proof fn ranking_keeps_items<T>(items: Seq<T>, keys: Seq<i128>, out: Seq<T>)
    requires
        is_ranked(items, keys, out),
        items.len() == keys.len(),
    ensures
        out.to_multiset() == items.to_multiset(),
{
    let order = choose|order: Seq<int>| #[trigger]
        is_ranking(keys, order) && is_reordered(items, order, out);
    assert(order.no_duplicates()) by {
        assert forall|a: int, b: int| 0 <= a < order.len() && 0 <= b < order.len() && a
            != b implies order[a] != order[b] by {
            if a < b {
                assert(precedes(keys, order[a], order[b]));
            } else {
                assert(precedes(keys, order[b], order[a]));
            }
        }
    }
    lemma_reordered_multiset(items, order, out);
}

proof fn lemma_reordered_multiset<T>(items: Seq<T>, order: Seq<int>, out: Seq<T>)
    requires
        order.no_duplicates(),
        order.len() == items.len(),
        forall|k: int| 0 <= k < order.len() ==> 0 <= #[trigger] order[k] < items.len(),
        is_reordered(items, order, out),
    ensures
        out.to_multiset() == items.to_multiset(),
    decreases items.len(),
{
    broadcast use vstd::seq_lib::group_to_multiset_ensures;

    if items.len() == 0 {
        assert(out =~= items);
    } else {
        let last = items.len() - 1;
        vstd::set_lib::lemma_int_range(0, items.len() as int);
        order.unique_seq_to_set();
        assert(order.to_set().subset_of(vstd::set_lib::set_int_range(0, items.len() as int)));
        if !order.to_set().contains(last as int) {
            let smaller = vstd::set_lib::set_int_range(0, items.len() as int).remove(last as int);
            assert(order.to_set().subset_of(smaller));
            vstd::set_lib::lemma_len_subset(order.to_set(), smaller);
        }
        let p = order.index_of(last as int);
        assert(0 <= p < order.len() && order[p] == last);
        let items2 = items.drop_last();
        let order2 = order.remove(p);
        let out2 = out.remove(p);
        assert forall|k: int| 0 <= k < order2.len() implies 0 <= #[trigger] order2[k]
            < items2.len() by {
            let k0 = if k < p {
                k
            } else {
                k + 1
            };
            assert(order2[k] == order[k0]);
            assert(order[k0] != order[p]);
        }
        assert(order2.no_duplicates()) by {
            assert forall|a: int, b: int| 0 <= a < order2.len() && 0 <= b < order2.len() && a
                != b implies order2[a] != order2[b] by {
                let a0 = if a < p {
                    a
                } else {
                    a + 1
                };
                let b0 = if b < p {
                    b
                } else {
                    b + 1
                };
                assert(order[a0] != order[b0]);
            }
        }
        assert(is_reordered(items2, order2, out2)) by {
            assert forall|k: int| 0 <= k < order2.len() implies #[trigger] out2[k]
                == items2[order2[k]] by {
                let k0 = if k < p {
                    k
                } else {
                    k + 1
                };
                assert(out2[k] == out[k0]);
                assert(order2[k] == order[k0]);
            }
        }
        lemma_reordered_multiset(items2, order2, out2);
        assert(items =~= items2.push(items.last()));
        assert(out =~= out2.insert(p, items.last()));
        assert(out.remove(p) =~= out2);
    }
}

/// A ranking puts larger keys first, and keeps what is equal in its old order.
pub proof fn rankings_are_stable<T>(items: Seq<T>, keys: Seq<i128>, out: Seq<T>)
    requires
        is_ranked(items, keys, out),
        items.len() == keys.len(),
    ensures
        out.len() == items.len(),
        exists|from: Seq<int>|
            #![trigger from.no_duplicates()]
            from.no_duplicates() && from.len() == items.len() && (forall|k: int|
                0 <= k < from.len() ==> 0 <= #[trigger] from[k] < items.len() && out[k]
                    == items[from[k]]) && (forall|a: int, b: int|
                0 <= a < b < from.len() ==> keys[#[trigger] from[a]] > keys[#[trigger] from[b]]
                    || (keys[from[a]] == keys[from[b]] && from[a] < from[b])),
{
    let order = choose|order: Seq<int>| #[trigger]
        is_ranking(keys, order) && is_reordered(items, order, out);
    assert(order.no_duplicates()) by {
        assert forall|a: int, b: int| 0 <= a < order.len() && 0 <= b < order.len() && a
            != b implies order[a] != order[b] by {
            if a < b {
                assert(precedes(keys, order[a], order[b]));
            } else {
                assert(precedes(keys, order[b], order[a]));
            }
        }
    }
    assert forall|k: int| 0 <= k < order.len() implies 0 <= #[trigger] order[k] < items.len()
        && out[k] == items[order[k]] by {
        assert(out[k] == items[order[k]]);
    }
    assert forall|a: int, b: int| 0 <= a < b < order.len() implies keys[#[trigger] order[a]]
        > keys[#[trigger] order[b]] || (keys[order[a]] == keys[order[b]] && order[a]
        < order[b]) by {
        assert(precedes(keys, order[a], order[b]));
    }
}

} // verus!
