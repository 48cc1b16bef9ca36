//! A stable order over indices, and what can be counted along it.

use vstd::prelude::*;

verus! {

/// What an index is sorted by: the major part first, then the minor part, then the index itself.
#[derive(Clone, Copy, Debug, PartialEq, Eq, Structural)]
pub struct SortKey {
    pub major: i128,
    pub minor: i64,
}

/// Whether index `a` comes before index `b`.
pub open spec fn precedes(keys: Seq<SortKey>, a: int, b: int) -> bool {
    keys[a].major < keys[b].major || (keys[a].major == keys[b].major && (keys[a].minor
        < keys[b].minor || (keys[a].minor == keys[b].minor && a < b)))
}

/// Whether `order` holds strictly ascending indices, each before all that follow it.
pub open spec fn ascending(keys: Seq<SortKey>, order: Seq<usize>) -> bool {
    forall|p: int, q: int|
        0 <= p < q < order.len() ==> #[trigger] precedes(keys, order[p] as int, order[q] as int)
}

/// Whether `order` holds exactly the indices `low..high`.
pub open spec fn covers(order: Seq<usize>, low: int, high: int) -> bool {
    &&& order.len() == high - low
    &&& forall|p: int| 0 <= p < order.len() ==> low <= #[trigger] order[p] < high
    &&& forall|k: usize| low <= k < high ==> #[trigger] order.contains(k)
}

/// Whether `order` is the stable order of all indices by `keys`.
pub open spec fn is_order(keys: Seq<SortKey>, order: Seq<usize>) -> bool {
    keys.len() <= usize::MAX && covers(order, 0, keys.len() as int) && ascending(keys, order)
}

/// The sum of `f` over `0..n`.
pub open spec fn sum_of(f: spec_fn(int) -> int, n: nat) -> int
    decreases n,
{
    if n == 0 {
        0
    } else {
        sum_of(f, (n - 1) as nat) + f(n - 1)
    }
}

/// The sum of the weights of all indices that come before `index`.
pub open spec fn weight_before(keys: Seq<SortKey>, weights: spec_fn(int) -> int, index: int) -> int {
    sum_of(
        |j: int|
            if precedes(keys, j, index) {
                weights(j)
            } else {
                0
            },
        keys.len(),
    )
}

/// The number of indices that come before `index`: its position in the order.
pub open spec fn position(keys: Seq<SortKey>, index: int) -> int {
    weight_before(keys, |j: int| 1int, index)
}

/// Functions that agree on `0..n` have the same sum.
pub proof fn lemma_sum_agree(f: spec_fn(int) -> int, g: spec_fn(int) -> int, n: nat)
    requires
        forall|j: int| 0 <= j < n ==> #[trigger] f(j) == g(j),
    ensures
        sum_of(f, n) == sum_of(g, n),
    decreases n,
{
    if n > 0 {
        lemma_sum_agree(f, g, (n - 1) as nat);
        assert(f(n - 1) == g(n - 1));
    }
}

/// Raising one summand by `extra` raises the sum by `extra`.
pub proof fn lemma_sum_raise(
    f: spec_fn(int) -> int,
    g: spec_fn(int) -> int,
    n: nat,
    k: int,
    extra: int,
)
    requires
        0 <= k < n,
        g(k) == f(k) + extra,
        forall|j: int| 0 <= j < n && j != k ==> #[trigger] f(j) == g(j),
    ensures
        sum_of(g, n) == sum_of(f, n) + extra,
    decreases n,
{
    if k == n - 1 {
        lemma_sum_agree(f, g, (n - 1) as nat);
    } else {
        lemma_sum_raise(f, g, (n - 1) as nat, k, extra);
        assert(f(n - 1) == g(n - 1));
    }
}

/// The sum of a sum is the sum of the sums.
pub proof fn lemma_sum_add(
    f: spec_fn(int) -> int,
    g: spec_fn(int) -> int,
    h: spec_fn(int) -> int,
    n: nat,
)
    requires
        forall|j: int| 0 <= j < n ==> #[trigger] h(j) == f(j) + g(j),
    ensures
        sum_of(h, n) == sum_of(f, n) + sum_of(g, n),
    decreases n,
{
    if n > 0 {
        lemma_sum_add(f, g, h, (n - 1) as nat);
        assert(h(n - 1) == f(n - 1) + g(n - 1));
    }
}

/// A sum of zeros is zero.
pub proof fn lemma_sum_zero(f: spec_fn(int) -> int, n: nat)
    requires
        forall|j: int| 0 <= j < n ==> #[trigger] f(j) == 0,
    ensures
        sum_of(f, n) == 0,
    decreases n,
{
    if n > 0 {
        lemma_sum_zero(f, (n - 1) as nat);
        assert(f(n - 1) == 0);
    }
}

/// A larger summand everywhere gives a larger sum.
pub proof fn lemma_sum_monotone(f: spec_fn(int) -> int, g: spec_fn(int) -> int, n: nat)
    requires
        forall|j: int| 0 <= j < n ==> #[trigger] f(j) <= g(j),
    ensures
        sum_of(f, n) <= sum_of(g, n),
    decreases n,
{
    if n > 0 {
        lemma_sum_monotone(f, g, (n - 1) as nat);
        assert(f(n - 1) <= g(n - 1));
    }
}

/// The first `p` indices of an order, as a condition on an index.
pub open spec fn among_first(order: Seq<usize>, p: int, index: int) -> bool {
    exists|q: int| 0 <= q < p && #[trigger] order[q] == index
}

/// The sum of the weights of the first `p` indices of an order.
pub open spec fn prefix_weight(order: Seq<usize>, weights: spec_fn(int) -> int, p: nat) -> int
    decreases p,
{
    if p == 0 {
        0
    } else {
        prefix_weight(order, weights, (p - 1) as nat) + weights(order[p - 1] as int)
    }
}

/// Walking an order, the weight passed so far is the weight of the indices met so far.
pub proof fn lemma_prefix_is_filtered_sum(
    keys: Seq<SortKey>,
    order: Seq<usize>,
    weights: spec_fn(int) -> int,
    p: nat,
)
    requires
        is_order(keys, order),
        p <= order.len(),
    ensures
        prefix_weight(order, weights, p) == sum_of(
            |j: int|
                if among_first(order, p as int, j) {
                    weights(j)
                } else {
                    0
                },
            keys.len(),
        ),
    decreases p,
{
    let here = |j: int|
        if among_first(order, p as int, j) {
            weights(j)
        } else {
            0
        };
    if p == 0 {
        lemma_sum_zero(here, keys.len());
    } else {
        let q = (p - 1) as nat;
        let k = order[q as int] as int;
        let there = |j: int|
            if among_first(order, q as int, j) {
                weights(j)
            } else {
                0
            };
        lemma_prefix_is_filtered_sum(keys, order, weights, q);
        assert(order[q as int] == k);
        assert(among_first(order, p as int, k));
        assert(!among_first(order, q as int, k)) by {
            if among_first(order, q as int, k) {
                let r = choose|r: int| 0 <= r < q && #[trigger] order[r] == k;
                assert(precedes(keys, order[r] as int, order[q as int] as int));
            }
        }
        assert forall|j: int| 0 <= j < keys.len() && j != k implies #[trigger] there(j) == here(
            j,
        ) by {
            if among_first(order, q as int, j) {
                let r = choose|r: int| 0 <= r < q && #[trigger] order[r] == j;
                assert(0 <= r < p && order[r] == j);
            }
            if among_first(order, p as int, j) {
                let r = choose|r: int| 0 <= r < p && #[trigger] order[r] == j;
                assert(r < q);
            }
        }
        lemma_sum_raise(there, here, keys.len(), k, weights(k));
    }
}

/// What comes before the index at place `p` of an order is what the first `p` places hold.
pub proof fn lemma_before_is_prefix(
    keys: Seq<SortKey>,
    order: Seq<usize>,
    weights: spec_fn(int) -> int,
    p: int,
)
    requires
        is_order(keys, order),
        0 <= p < order.len(),
    ensures
        weight_before(keys, weights, order[p] as int) == prefix_weight(order, weights, p as nat),
{
    let index = order[p] as int;
    let before = |j: int|
        if precedes(keys, j, index) {
            weights(j)
        } else {
            0
        };
    let met = |j: int|
        if among_first(order, p, j) {
            weights(j)
        } else {
            0
        };
    assert forall|j: int| 0 <= j < keys.len() implies #[trigger] before(j) == met(j) by {
        assert(order.contains(j as usize));
        let q = choose|q: int| 0 <= q < order.len() && order[q] == j as usize;
        if q < p {
            assert(precedes(keys, order[q] as int, order[p] as int));
        } else if q > p {
            assert(precedes(keys, order[p] as int, order[q] as int));
        }
        if among_first(order, p, j) {
            let r = choose|r: int| 0 <= r < p && #[trigger] order[r] == j;
            assert(precedes(keys, order[r] as int, order[p] as int));
        }
    }
    lemma_sum_agree(before, met, keys.len());
    lemma_prefix_is_filtered_sum(keys, order, weights, p as nat);
}

/// Along an order, the weight passed in the first `p` places with weight one each is `p`.
pub proof fn lemma_prefix_ones(order: Seq<usize>, p: nat)
    ensures
        prefix_weight(order, |j: int| 1int, p) == p,
    decreases p,
{
    if p > 0 {
        lemma_prefix_ones(order, (p - 1) as nat);
    }
}

/// The index at place `p` of an order has position `p`.
pub proof fn lemma_order_position(keys: Seq<SortKey>, order: Seq<usize>, p: int)
    requires
        is_order(keys, order),
        0 <= p < order.len(),
    ensures
        position(keys, order[p] as int) == p,
{
    lemma_before_is_prefix(keys, order, |j: int| 1int, p);
    lemma_prefix_ones(order, p as nat);
}

/// Every index stands in an order, at its position.
pub proof fn lemma_position_in_order(keys: Seq<SortKey>, order: Seq<usize>, index: int)
    requires
        is_order(keys, order),
        0 <= index < keys.len(),
    ensures
        0 <= position(keys, index) < keys.len(),
        order[position(keys, index)] == index,
{
    assert(order.contains(index as usize));
    let p = choose|p: int| 0 <= p < order.len() && order[p] == index as usize;
    lemma_order_position(keys, order, p);
}

/// What comes before an index comes before everything that follows it.
pub proof fn lemma_weight_before_grows(
    keys: Seq<SortKey>,
    weights: spec_fn(int) -> int,
    i: int,
    j: int,
)
    requires
        0 <= i < keys.len(),
        0 <= j < keys.len(),
        precedes(keys, i, j),
        forall|k: int| 0 <= k < keys.len() ==> #[trigger] weights(k) >= 0,
    ensures
        weight_before(keys, weights, i) + weights(i) <= weight_before(keys, weights, j),
{
    let of_i = |k: int|
        if precedes(keys, k, i) {
            weights(k)
        } else {
            0
        };
    let with_i = |k: int|
        if precedes(keys, k, i) || k == i {
            weights(k)
        } else {
            0
        };
    let of_j = |k: int|
        if precedes(keys, k, j) {
            weights(k)
        } else {
            0
        };
    lemma_sum_raise(of_i, with_i, keys.len(), i, weights(i));
    assert forall|k: int| 0 <= k < keys.len() implies #[trigger] with_i(k) <= of_j(k) by {
        assert(weights(k) >= 0);
    }
    lemma_sum_monotone(with_i, of_j, keys.len());
}

/// What comes before an index, together with the index, is no more than everything.
pub proof fn lemma_weight_before_within(
    keys: Seq<SortKey>,
    weights: spec_fn(int) -> int,
    i: int,
)
    requires
        0 <= i < keys.len(),
        forall|k: int| 0 <= k < keys.len() ==> #[trigger] weights(k) >= 0,
    ensures
        0 <= weight_before(keys, weights, i),
        weight_before(keys, weights, i) + weights(i) <= sum_of(weights, keys.len()),
{
    let of_i = |k: int|
        if precedes(keys, k, i) {
            weights(k)
        } else {
            0
        };
    let with_i = |k: int|
        if precedes(keys, k, i) || k == i {
            weights(k)
        } else {
            0
        };
    let none = |k: int| 0int;
    lemma_sum_raise(of_i, with_i, keys.len(), i, weights(i));
    assert forall|k: int| 0 <= k < keys.len() implies #[trigger] with_i(k) <= weights(k) by {
        assert(weights(k) >= 0);
    }
    lemma_sum_monotone(with_i, weights, keys.len());
    assert forall|k: int| 0 <= k < keys.len() implies #[trigger] none(k) <= of_i(k) by {
        assert(weights(k) >= 0);
    }
    lemma_sum_monotone(none, of_i, keys.len());
    lemma_sum_zero(none, keys.len());
}

/// The sum of ones counts the indices.
proof fn lemma_sum_ones(n: nat)
    ensures
        sum_of(|j: int| 1int, n) == n,
    decreases n,
{
    if n > 0 {
        lemma_sum_ones((n - 1) as nat);
    }
}

/// The positions of all indices are the numbers from zero on, each once, ordered as the indices
/// are.
pub proof fn positions_are_a_permutation(keys: Seq<SortKey>, i: int, j: int)
    requires
        0 <= i < keys.len(),
        0 <= j < keys.len(),
        i != j,
    ensures
        0 <= position(keys, i) < keys.len(),
        position(keys, i) != position(keys, j),
        precedes(keys, i, j) <==> position(keys, i) < position(keys, j),
{
    let ones = |k: int| 1int;
    lemma_weight_before_within(keys, ones, i);
    lemma_sum_ones(keys.len());
    if precedes(keys, i, j) {
        lemma_weight_before_grows(keys, ones, i, j);
    } else {
        lemma_weight_before_grows(keys, ones, j, i);
    }
}

/// An order of all indices by `keys`: any of those that there are.
pub open spec fn order_of(keys: Seq<SortKey>) -> Seq<usize> {
    choose|order: Seq<usize>| is_order(keys, order)
}

/// The indices below `n`, put where they come in the order.
proof fn lemma_insert_next(keys: Seq<SortKey>, order: Seq<usize>, n: int) -> (next: Seq<usize>)
    requires
        0 <= n < keys.len() <= usize::MAX,
        covers(order, 0, n),
        ascending(keys, order),
    ensures
        covers(next, 0, n + 1),
        ascending(keys, next),
{
    let p = lemma_place_of_next(keys, order, n, order.len());
    let next = order.insert(p, n as usize);
    assert(next[p] == n);
    assert forall|k: usize| 0 <= k < n + 1 implies #[trigger] next.contains(k) by {
        if k < n {
            assert(order.contains(k));
            let q = choose|q: int| 0 <= q < order.len() && order[q] == k;
            if q < p {
                assert(next[q] == k);
            } else {
                assert(next[q + 1] == k);
            }
        }
    }
    assert forall|a: int, b: int| 0 <= a < b < next.len() implies #[trigger] precedes(
        keys,
        next[a] as int,
        next[b] as int,
    ) by {
        let x = if a < p {
            a
        } else {
            a - 1
        };
        let y = if b < p {
            b
        } else {
            b - 1
        };
        if a != p && b != p {
            assert(precedes(keys, order[x] as int, order[y] as int));
        } else if a == p {
            assert(precedes(keys, n, order[y] as int));
        } else {
            assert(precedes(keys, order[x] as int, n));
        }
    }
    next
}

/// How many of the first `m` indices of an order come before index `n`: those are the first.
proof fn lemma_place_of_next(keys: Seq<SortKey>, order: Seq<usize>, n: int, m: nat) -> (p: int)
    requires
        0 <= n < keys.len(),
        m <= order.len(),
        ascending(keys, order),
        forall|q: int| 0 <= q < order.len() ==> 0 <= #[trigger] order[q] < n,
    ensures
        0 <= p <= m,
        forall|q: int| 0 <= q < p ==> precedes(keys, #[trigger] order[q] as int, n),
        forall|q: int| p <= q < m ==> precedes(keys, n, #[trigger] order[q] as int),
    decreases m,
{
    if m == 0 {
        0
    } else {
        let p = lemma_place_of_next(keys, order, n, (m - 1) as nat);
        let last = order[m - 1] as int;
        if precedes(keys, last, n) {
            assert forall|q: int| 0 <= q < m implies precedes(keys, #[trigger] order[q] as int, n) by {
                if q < m - 1 {
                    assert(precedes(keys, order[q] as int, order[m - 1] as int));
                }
            }
            m as int
        } else {
            assert(precedes(keys, n, last));
            p
        }
    }
}

proof fn lemma_prefix_order_exists(keys: Seq<SortKey>, n: nat) -> (order: Seq<usize>)
    requires
        n <= keys.len() <= usize::MAX,
    ensures
        covers(order, 0, n as int),
        ascending(keys, order),
    decreases n,
{
    if n == 0 {
        Seq::empty()
    } else {
        let before = lemma_prefix_order_exists(keys, (n - 1) as nat);
        lemma_insert_next(keys, before, n - 1)
    }
}

/// There is an order of all indices.
pub proof fn lemma_order_exists(keys: Seq<SortKey>)
    requires
        keys.len() <= usize::MAX,
    ensures
        is_order(keys, order_of(keys)),
{
    let order = lemma_prefix_order_exists(keys, keys.len());
    assert(is_order(keys, order));
}

/// Appending to a sequence keeps what it holds and adds the new item.
proof fn lemma_push_holds(s: Seq<usize>, x: usize)
    ensures
        s.push(x).contains(x),
        forall|y: usize| s.contains(y) ==> #[trigger] s.push(x).contains(y),
{
    assert(s.push(x)[s.len() as int] == x);
    assert forall|y: usize| s.contains(y) implies #[trigger] s.push(x).contains(y) by {
        let i = choose|i: int| 0 <= i < s.len() && s[i] == y;
        assert(s.push(x)[i] == y);
    }
}

/// Whether index `a` comes before index `b`.
fn comes_first(keys: &Vec<SortKey>, a: usize, b: usize) -> (result: bool)
    requires
        a < keys@.len(),
        b < keys@.len(),
    ensures
        result == precedes(keys@, a as int, b as int),
{
    if keys[a].major != keys[b].major {
        keys[a].major < keys[b].major
    } else if keys[a].minor != keys[b].minor {
        keys[a].minor < keys[b].minor
    } else {
        a < b
    }
}

/// Merges two neighbouring sorted runs.
fn merge_runs(
    keys: &Vec<SortKey>,
    left: &Vec<usize>,
    right: &Vec<usize>,
    low: usize,
    middle: usize,
    high: usize,
) -> (out: Vec<usize>)
    requires
        low <= middle <= high <= keys@.len(),
        covers(left@, low as int, middle as int),
        covers(right@, middle as int, high as int),
        ascending(keys@, left@),
        ascending(keys@, right@),
    ensures
        covers(out@, low as int, high as int),
        ascending(keys@, out@),
{
    let mut out: Vec<usize> = Vec::with_capacity(left.len() + right.len());
    let mut i: usize = 0;
    let mut j: usize = 0;
    while i < left.len() || j < right.len()
        invariant
            low <= middle <= high <= keys@.len(),
            covers(left@, low as int, middle as int),
            covers(right@, middle as int, high as int),
            ascending(keys@, left@),
            ascending(keys@, right@),
            i <= left@.len(),
            j <= right@.len(),
            out@.len() == i + j,
            ascending(keys@, out@),
            forall|q: int| 0 <= q < out@.len() ==> low <= #[trigger] out@[q] < high,
            forall|k: int| 0 <= k < i ==> out@.contains(#[trigger] left@[k]),
            forall|k: int| 0 <= k < j ==> out@.contains(#[trigger] right@[k]),
            forall|q: int, k: int|
                0 <= q < out@.len() && i <= k < left@.len() ==> #[trigger] precedes(
                    keys@,
                    out@[q] as int,
                    left@[k] as int,
                ),
            forall|q: int, k: int|
                0 <= q < out@.len() && j <= k < right@.len() ==> #[trigger] precedes(
                    keys@,
                    out@[q] as int,
                    right@[k] as int,
                ),
        decreases left@.len() - i + right@.len() - j,
    {
        let take_left: bool = i < left.len() && (j >= right.len() || comes_first(
            keys,
            left[i],
            right[j],
        ));
        let next: usize = if take_left {
            left[i]
        } else {
            right[j]
        };
        proof {
            lemma_push_holds(out@, next);
            assert forall|k: int| i <= k < left@.len() && !(take_left && k
                == i) implies #[trigger] precedes(keys@, next as int, left@[k] as int) by {
                if take_left {
                    assert(precedes(keys@, left@[i as int] as int, left@[k] as int));
                } else {
                    assert(precedes(keys@, next as int, left@[i as int] as int));
                    if k > i {
                        assert(precedes(keys@, left@[i as int] as int, left@[k] as int));
                    }
                }
            }
            assert forall|k: int| j <= k < right@.len() && !(!take_left && k
                == j) implies #[trigger] precedes(keys@, next as int, right@[k] as int) by {
                if take_left {
                    assert(precedes(keys@, next as int, right@[j as int] as int));
                    if k > j {
                        assert(precedes(keys@, right@[j as int] as int, right@[k] as int));
                    }
                } else {
                    assert(precedes(keys@, right@[j as int] as int, right@[k] as int));
                }
            }
        }
        out.push(next);
        if take_left {
            i = i + 1;
        } else {
            j = j + 1;
        }
    }
    proof {
        assert forall|k: usize| low <= k < high implies #[trigger] out@.contains(k) by {
            if k < middle {
                assert(left@.contains(k));
                let p = choose|p: int| 0 <= p < left@.len() && left@[p] == k;
                assert(out@.contains(left@[p]));
            } else {
                assert(right@.contains(k));
                let p = choose|p: int| 0 <= p < right@.len() && right@[p] == k;
                assert(out@.contains(right@[p]));
            }
        }
    }
    out
}

/// Sorts the indices `low..high`.
fn sort_range(keys: &Vec<SortKey>, low: usize, high: usize) -> (out: Vec<usize>)
    requires
        low <= high <= keys@.len(),
    ensures
        covers(out@, low as int, high as int),
        ascending(keys@, out@),
    decreases high - low,
{
    let mut out: Vec<usize> = Vec::new();
    if high - low == 0 {
        return out;
    }
    if high - low == 1 {
        out.push(low);
        assert(out@[0] == low);
        return out;
    }
    let middle: usize = low + (high - low) / 2;
    let left = sort_range(keys, low, middle);
    let right = sort_range(keys, middle, high);
    merge_runs(keys, &left, &right, low, middle, high)
}

/// The stable order of all indices by `keys`.
pub fn stable_order(keys: &Vec<SortKey>) -> (order: Vec<usize>)
    ensures
        is_order(keys@, order@),
{
    sort_range(keys, 0, keys.len())
}

} // verus!
