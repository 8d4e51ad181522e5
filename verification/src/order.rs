//! Numeric ordering of pages.
//!
//! Pages are ordered by their number, as numbers: 2 comes before 10. Two
//! pages with the same number stay in the order in which they were found.

use vstd::prelude::*;

verus! {

/// `order`, which arranges places of `keys`, with the place `k` put in: behind
/// every place whose key is at most that of `k`, before the others.
pub open spec fn insert_place(order: Seq<int>, keys: Seq<u64>, k: int) -> Seq<int>
    decreases order.len(),
{
    if order.len() == 0 || keys[order.last()] <= keys[k] {
        order.push(k)
    } else {
        insert_place(order.drop_last(), keys, k).push(order.last())
    }
}

/// The places `0..n` of `keys`, arranged so that the keys ascend and equal
/// keys keep their order.
pub open spec fn number_order(keys: Seq<u64>, n: nat) -> Seq<int>
    decreases n,
{
    if n == 0 {
        Seq::empty()
    } else {
        insert_place(number_order(keys, (n - 1) as nat), keys, n - 1)
    }
}

/// Whether the keys ascend along `order`, equal keys by ascending place.
pub open spec fn ascending(order: Seq<int>, keys: Seq<u64>) -> bool {
    forall|i: int, j: int|
        0 <= i < j < order.len() ==> keys[#[trigger] order[i]] < keys[#[trigger] order[j]] || (
            keys[order[i]] == keys[order[j]] && order[i] < order[j])
}

/// Whether `order` holds each of the places `0..n` and nothing else.
pub open spec fn arranges(order: Seq<int>, n: nat) -> bool {
    &&& order.len() == n
    &&& forall|i: int| 0 <= i < order.len() ==> 0 <= #[trigger] order[i] < n
    &&& forall|k: int| 0 <= k < n ==> order.contains(k)
}

/// Whether a scan of `order` from its end, for the key of `k`, stops at `p`:
/// everything from `p` on has a larger key, and what stands before `p` has not.
pub open spec fn stops_at(order: Seq<int>, keys: Seq<u64>, k: int, p: int) -> bool {
    &&& 0 <= p <= order.len()
    &&& forall|i: int| p <= i < order.len() ==> keys[#[trigger] order[i]] > keys[k]
    &&& p > 0 ==> keys[order[p - 1]] <= keys[k]
}

/// Inserting at the place that a scan from the end finds is `insert_place`.
pub proof fn lemma_insert_place_at(order: Seq<int>, keys: Seq<u64>, k: int, p: int)
    requires
        stops_at(order, keys, k, p),
    ensures
        insert_place(order, keys, k) == order.insert(p, k),
    decreases order.len() - p,
{
    if p == order.len() {
        assert(order.insert(p, k) =~= order.push(k));
    } else {
        let rest = order.drop_last();
        assert(keys[order.last()] > keys[k]);
        assert forall|i: int| p <= i < rest.len() implies keys[#[trigger] rest[i]] > keys[k] by {
            assert(rest[i] == order[i]);
        }
        if p > 0 {
            assert(rest[p - 1] == order[p - 1]);
        }
        assert(stops_at(rest, keys, k, p));
        lemma_insert_place_at(rest, keys, k, p);
        assert(rest.insert(p, k).push(order.last()) =~= order.insert(p, k));
    }
}

/// Putting a new last place into an ascending arrangement keeps it one.
pub proof fn lemma_insert_place(order: Seq<int>, keys: Seq<u64>, n: nat)
    requires
        n < keys.len(),
        arranges(order, n),
        ascending(order, keys),
    ensures
        arranges(insert_place(order, keys, n as int), n + 1),
        ascending(insert_place(order, keys, n as int), keys),
    decreases order.len(),
{
    let k = n as int;
    let p = lemma_scan_stops(order, keys, k, order.len() as int);
    lemma_insert_place_at(order, keys, k, p);
    let next = order.insert(p, k);
    assert(next.len() == n + 1);
    assert forall|i: int| 0 <= i < next.len() implies 0 <= #[trigger] next[i] < n + 1 by {
        if i < p {
            assert(next[i] == order[i]);
        } else if i > p {
            assert(next[i] == order[i - 1]);
        }
    }
    assert forall|x: int| 0 <= x < n + 1 implies next.contains(x) by {
        if x == n {
            assert(next[p] == x);
        } else {
            assert(order.contains(x));
            let i = choose|i: int| 0 <= i < order.len() && order[i] == x;
            if i < p {
                assert(next[i] == x);
            } else {
                assert(next[i + 1] == x);
            }
        }
    }
    assert forall|i: int, j: int| 0 <= i < j < next.len() implies keys[#[trigger] next[i]]
        < keys[#[trigger] next[j]] || (keys[next[i]] == keys[next[j]] && next[i] < next[j]) by {
        let a = if i < p {
            i
        } else {
            i - 1
        };
        let b = if j < p {
            j
        } else {
            j - 1
        };
        if i != p && j != p {
            assert(next[i] == order[a] && next[j] == order[b]);
            assert(a < b);
        } else if i == p {
            assert(next[j] == order[b]);
            assert(keys[order[b]] > keys[k]);
        } else {
            assert(next[i] == order[a]);
            assert(a <= p - 1);
            if a < p - 1 {
                assert(keys[order[a]] < keys[order[p - 1]] || (keys[order[a]] == keys[order[p
                    - 1]] && order[a] < order[p - 1]));
            }
            assert(keys[order[a]] <= keys[k]);
            assert(order[a] < n);
        }
    }
}

/// A scan from the end of `order` stops somewhere at or before `q`.
proof fn lemma_scan_stops(order: Seq<int>, keys: Seq<u64>, k: int, q: int) -> (p: int)
    requires
        0 <= q <= order.len(),
        forall|i: int| q <= i < order.len() ==> keys[#[trigger] order[i]] > keys[k],
    ensures
        stops_at(order, keys, k, p),
    decreases q,
{
    if q > 0 && keys[order[q - 1]] > keys[k] {
        lemma_scan_stops(order, keys, k, q - 1)
    } else {
        q
    }
}

/// The numeric order holds every place once, with the keys ascending and
/// equal keys in the order of their places.
pub proof fn lemma_number_order(keys: Seq<u64>, n: nat)
    requires
        n <= keys.len(),
    ensures
        arranges(number_order(keys, n), n),
        ascending(number_order(keys, n), keys),
    decreases n,
{
    if n > 0 {
        lemma_number_order(keys, (n - 1) as nat);
        lemma_insert_place(number_order(keys, (n - 1) as nat), keys, (n - 1) as nat);
    }
}

/// The places of an exec arrangement as integers.
pub open spec fn places(order: Seq<usize>) -> Seq<int> {
    order.map_values(|k: usize| k as int)
}

/// Arranges the places of `keys` in numeric order.
pub fn order_by_number(keys: &Vec<u64>) -> (r: Vec<usize>)
    ensures
        places(r@) == number_order(keys@, keys@.len()),
        r.len() == keys.len(),
        forall|i: int| 0 <= i < r.len() ==> r[i] < keys.len(),
{
    let mut order: Vec<usize> = Vec::new();
    let mut k: usize = 0;
    assert(places(order@) =~= number_order(keys@, 0));
    while k < keys.len()
        invariant
            k <= keys.len(),
            order.len() == k,
            places(order@) == number_order(keys@, k as nat),
            forall|i: int| 0 <= i < order.len() ==> order[i] < k,
        decreases keys.len() - k,
    {
        let ghost before = places(order@);
        let mut p: usize = order.len();
        while p > 0 && keys[order[p - 1]] > keys[k]
            invariant
                p <= order.len(),
                k < keys.len(),
                forall|i: int| 0 <= i < order.len() ==> order[i] < k,
                forall|i: int| p <= i < order.len() ==> keys@[order@[i] as int] > keys@[k as int],
            decreases p,
        {
            p = p - 1;
        }
        proof {
            assert forall|i: int| p <= i < before.len() implies keys@[#[trigger] before[i]]
                > keys@[k as int] by {
                assert(before[i] == order@[i] as int);
            }
            if p > 0 {
                assert(before[p - 1] == order@[p - 1] as int);
            }
            assert(stops_at(before, keys@, k as int, p as int));
            lemma_insert_place_at(before, keys@, k as int, p as int);
        }
        order.insert(p, k);
        assert(places(order@) =~= before.insert(p as int, k as int));
        assert forall|i: int| 0 <= i < order.len() implies order[i] < k + 1 by {
            if i < p {
                assert(order@[i] as int == before[i]);
            } else if i > p {
                assert(order@[i] as int == before[i - 1]);
            }
        }
        k = k + 1;
    }
    order
}

} // verus!
