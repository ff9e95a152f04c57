//! Stable sorting by a number.

use vstd::prelude::*;

verus! {

/// The first position at or after `i` in `order` whose key is above `key`.
pub open spec fn slot(order: Seq<int>, keys: Seq<int>, key: int, i: int) -> int
    decreases order.len() - i,
{
    if 0 <= i < order.len() && keys[order[i]] <= key {
        slot(order, keys, key, i + 1)
    } else {
        i
    }
}

/// The positions of `keys` from the smallest key to the largest, equal keys
/// staying in the order in which they stand.
pub open spec fn arrangement(keys: Seq<int>) -> Seq<int>
    decreases keys.len(),
{
    if keys.len() == 0 {
        Seq::empty()
    } else {
        let rest = arrangement(keys.drop_last());
        rest.insert(slot(rest, keys, keys.last(), 0), keys.len() - 1)
    }
}

/// `items` in the order that their keys ask for.
pub open spec fn arranged<T>(items: Seq<T>, keys: Seq<int>) -> Seq<T> {
    Seq::new(items.len(), |i: int| items[arrangement(keys)[i]])
}

/// `order` holds each position of `keys` once, smaller keys first, and of equal
/// keys the earlier one first.
pub open spec fn is_stable_order(order: Seq<int>, keys: Seq<int>) -> bool {
    &&& order.len() == keys.len()
    &&& forall|i: int| 0 <= i < order.len() ==> 0 <= #[trigger] order[i] < keys.len()
    &&& forall|k: int| 0 <= k < keys.len() ==> #[trigger] order.contains(k)
    &&& forall|i: int, j: int|
        0 <= i < j < order.len() ==> keys[#[trigger] order[i]] < keys[#[trigger] order[j]] || (
        keys[order[i]] == keys[order[j]] && order[i] < order[j])
}

proof fn lemma_slot(order: Seq<int>, keys: Seq<int>, key: int, i: int)
    requires
        0 <= i <= order.len(),
    ensures
        i <= slot(order, keys, key, i) <= order.len(),
        forall|k: int| i <= k < slot(order, keys, key, i) ==> keys[#[trigger] order[k]] <= key,
        slot(order, keys, key, i) < order.len() ==> keys[order[slot(order, keys, key, i)]] > key,
    decreases order.len() - i,
{
    if i < order.len() && keys[order[i]] <= key {
        lemma_slot(order, keys, key, i + 1);
    }
}

/// An arrangement holds each position once, smaller keys first, and of equal
/// keys the earlier one first.
pub proof fn arrangement_is_stable(keys: Seq<int>)
    ensures
        is_stable_order(arrangement(keys), keys),
    decreases keys.len(),
{
    if keys.len() > 0 {
        let less = keys.drop_last();
        arrangement_is_stable(less);
        let rest = arrangement(less);
        let at = slot(rest, keys, keys.last(), 0);
        lemma_slot(rest, keys, keys.last(), 0);
        let order = arrangement(keys);
        let n = keys.len() - 1;
        assert forall|k: int| 0 <= k < keys.len() implies #[trigger] order.contains(k) by {
            if k == n {
                assert(order[at] == k);
            } else {
                assert(rest.contains(k));
                let m = rest.index_of(k);
                if m < at {
                    assert(order[m] == k);
                } else {
                    assert(order[m + 1] == k);
                }
            }
        }
        assert forall|i: int, j: int| 0 <= i < j < order.len() implies keys[#[trigger] order[i]]
            < keys[#[trigger] order[j]] || (keys[order[i]] == keys[order[j]] && order[i]
            < order[j]) by {
            if i < at {
                assert(order[i] == rest[i]);
            } else if i > at {
                assert(order[i] == rest[i - 1]);
            }
            if j < at {
                assert(order[j] == rest[j]);
            } else if j > at {
                assert(order[j] == rest[j - 1]);
                if i == at && j - 1 > at {
                    assert(keys[rest[at]] <= keys[rest[j - 1]]);
                }
            }
        }
    }
}

/// The numbers that a list of keys holds.
pub open spec fn numbers(keys: Seq<u128>) -> Seq<int> {
    Seq::new(keys.len(), |i: int| keys[i] as int)
}

/// The numbers that a list of positions holds.
pub open spec fn positions(v: Seq<usize>) -> Seq<int> {
    Seq::new(v.len(), |i: int| v[i] as int)
}

fn find_slot(order: &Vec<usize>, keys: &[u128], n: usize) -> (r: usize)
    requires
        n < keys@.len(),
        positions(order@) == arrangement(numbers(keys@).take(n as int)),
    ensures
        r == slot(positions(order@), numbers(keys@).take(n + 1), keys@[n as int] as int, 0),
        r <= order@.len(),
{
    let ghost all = numbers(keys@).take(n + 1);
    let ghost pos = positions(order@);
    let key = keys[n];
    proof {
        arrangement_is_stable(numbers(keys@).take(n as int));
    }
    let mut lo: usize = 0;
    let mut hi: usize = order.len();
    while lo < hi
        invariant
            n < keys@.len(),
            key == keys@[n as int],
            all == numbers(keys@).take(n + 1),
            pos == positions(order@),
            is_stable_order(pos, numbers(keys@).take(n as int)),
            lo <= hi <= order@.len(),
            forall|k: int| 0 <= k < lo ==> all[#[trigger] pos[k]] <= key,
            forall|k: int| hi <= k < pos.len() ==> all[#[trigger] pos[k]] > key,
        decreases hi - lo,
    {
        let mid: usize = lo + (hi - lo) / 2;
        let at: usize = order[mid];
        assert(pos[mid as int] == at);
        assert(forall|k: int| 0 <= k < n ==> numbers(keys@).take(n as int)[k] == all[k]);
        if keys[at] <= key {
            assert forall|k: int| 0 <= k <= mid implies all[#[trigger] pos[k]] <= key by {
                if k < mid {
                    assert(pos[k] < n && pos[mid as int] < n);
                }
            }
            lo = mid + 1;
        } else {
            assert forall|k: int| mid <= k < pos.len() implies all[#[trigger] pos[k]] > key by {
                if mid < k {
                    assert(pos[k] < n && pos[mid as int] < n);
                }
            }
            hi = mid;
        }
    }
    proof {
        lemma_slot(pos, all, key as int, 0);
        let s = slot(pos, all, key as int, 0);
        if s < lo {
            assert(all[pos[s]] <= key);
        } else if s > lo {
            assert(all[pos[lo as int]] <= key);
        }
    }
    lo
}

/// The positions of `keys` from the smallest key to the largest, equal keys
/// staying in the order in which they stand.
pub fn arrange(keys: &[u128]) -> (r: Vec<usize>)
    ensures
        positions(r@) == arrangement(numbers(keys@)),
        is_stable_order(positions(r@), numbers(keys@)),
{
    let mut order: Vec<usize> = Vec::new();
    let ghost all = numbers(keys@);
    assert(positions(order@) =~= arrangement(all.take(0)));
    for i in 0..keys.len()
        invariant
            all == numbers(keys@),
            positions(order@) == arrangement(all.take(i as int)),
            order@.len() == i,
    {
        let ghost rest = order@;
        let at = find_slot(&order, keys, i);
        order.insert(at, i);
        proof {
            assert(all.take(i + 1).drop_last() =~= all.take(i as int));
            assert(all.take(i + 1).last() == keys@[i as int] as int);
            assert(positions(order@) =~= positions(rest).insert(at as int, i as int));
        }
    }
    proof {
        assert(all.take(all.len() as int) =~= all);
        arrangement_is_stable(all);
    }
    order
}

} // verus!
