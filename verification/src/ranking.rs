//! Stable ranking of the positions of a list.
//!
//! A ranking is a list of positions: every position once, each before all
//! that it precedes in a strict total order of the positions. The order most
//! used here goes by an integer key, and among equal keys by position, so
//! that items with equal keys keep the order in which they came.

use vstd::prelude::*;

verus! {

/// `before` orders the positions below `n` strictly and totally.
pub open spec fn orders_positions(before: spec_fn(int, int) -> bool, n: int) -> bool {
    &&& forall|a: int, b: int|
        0 <= a < n && 0 <= b < n && #[trigger] before(a, b) ==> !before(b, a)
    &&& forall|a: int, b: int|
        0 <= a < n && 0 <= b < n && a != b ==> #[trigger] before(a, b) || before(b, a)
    &&& forall|a: int, b: int, c: int|
        0 <= a < n && 0 <= b < n && 0 <= c < n && #[trigger] before(a, b) && #[trigger] before(
            b,
            c,
        ) ==> before(a, c)
}

/// `order` lists only positions below `n`, each before all that follow it.
pub open spec fn is_sorted_by(before: spec_fn(int, int) -> bool, n: int, order: Seq<usize>) -> bool {
    &&& forall|j: int| 0 <= j < order.len() ==> (#[trigger] order[j]) < n
    &&& forall|j: int, k: int|
        0 <= j < k < order.len() ==> before(#[trigger] order[j] as int, #[trigger] order[k] as int)
}

/// `order` is the ranking of the positions below `n` by `before`.
pub open spec fn is_ranked_by(before: spec_fn(int, int) -> bool, n: int, order: Seq<usize>) -> bool {
    &&& order.len() == n
    &&& is_sorted_by(before, n, order)
    &&& forall|v: usize| v < n ==> #[trigger] order.contains(v)
}

/// The ranking of the positions below `n` by `before`: the one list that
/// `is_ranked_by` accepts.
pub open spec fn rank_by(before: spec_fn(int, int) -> bool, n: int) -> Seq<usize> {
    choose|order: Seq<usize>| is_ranked_by(before, n, order)
}

/// Whether position `a` comes before position `b` in the ranking of `keys`.
pub open spec fn precedes(keys: Seq<i128>, descending: bool, a: int, b: int) -> bool {
    if keys[a] == keys[b] {
        a < b
    } else if descending {
        keys[a] > keys[b]
    } else {
        keys[a] < keys[b]
    }
}

/// The order of positions by key, and among equal keys by position.
pub open spec fn key_order(keys: Seq<i128>, descending: bool) -> spec_fn(int, int) -> bool {
    |a: int, b: int| precedes(keys, descending, a, b)
}

/// `order` lists only positions of `keys`, each before all that it precedes.
pub open spec fn is_sorted_order(keys: Seq<i128>, descending: bool, order: Seq<usize>) -> bool {
    is_sorted_by(key_order(keys, descending), keys.len() as int, order)
}

/// `order` is the stable ranking of `keys`.
pub open spec fn is_stable_order(keys: Seq<i128>, descending: bool, order: Seq<usize>) -> bool {
    is_ranked_by(key_order(keys, descending), keys.len() as int, order)
}

/// The stable ranking of `keys`: the one list of positions that
/// `is_stable_order` accepts.
pub open spec fn ranking(keys: Seq<i128>, descending: bool) -> Seq<usize> {
    rank_by(key_order(keys, descending), keys.len() as int)
}

/// The items of `items` in the order that `order` gives.
pub open spec fn arranged<T>(items: Seq<T>, order: Seq<usize>) -> Seq<T> {
    Seq::new(order.len(), |i: int| items[order[i] as int])
}

/// The order by key is a strict total order of the positions.
pub proof fn lemma_key_order(keys: Seq<i128>, descending: bool)
    ensures
        orders_positions(key_order(keys, descending), keys.len() as int),
{
}

/// The positions below `n` have one ranking only.
pub proof fn lemma_rank_unique(
    before: spec_fn(int, int) -> bool,
    n: int,
    a: Seq<usize>,
    b: Seq<usize>,
)
    requires
        orders_positions(before, n),
        is_ranked_by(before, n, a),
        is_ranked_by(before, n, b),
    ensures
        a == b,
{
    lemma_same_prefix(before, n, a, b, n);
    assert(a.take(a.len() as int) =~= a);
    assert(b.take(b.len() as int) =~= b);
}

/// A list of keys has one stable ranking only.
pub proof fn lemma_stable_order_unique(
    keys: Seq<i128>,
    descending: bool,
    a: Seq<usize>,
    b: Seq<usize>,
)
    requires
        is_stable_order(keys, descending, a),
        is_stable_order(keys, descending, b),
    ensures
        a == b,
{
    lemma_key_order(keys, descending);
    lemma_rank_unique(key_order(keys, descending), keys.len() as int, a, b);
}

proof fn lemma_same_prefix(
    before: spec_fn(int, int) -> bool,
    n: int,
    a: Seq<usize>,
    b: Seq<usize>,
    m: int,
)
    requires
        orders_positions(before, n),
        is_ranked_by(before, n, a),
        is_ranked_by(before, n, b),
        0 <= m <= n,
    ensures
        a.take(m) == b.take(m),
    decreases m,
{
    if m == 0 {
        assert(a.take(0) =~= b.take(0));
    } else {
        lemma_same_prefix(before, n, a, b, m - 1);
        let k = m - 1;
        assert forall|i: int| 0 <= i < k implies a[i] == b[i] by {
            assert(a.take(k)[i] == b.take(k)[i]);
        }
        if a[k] != b[k] {
            lemma_later_in_other(before, n, a, b, k);
            lemma_later_in_other(before, n, b, a, k);
            let ja = choose|j: int| k < j < b.len() && b[j] == a[k];
            let jb = choose|j: int| k < j < a.len() && a[j] == b[k];
            assert(before(b[k] as int, b[ja] as int));
            assert(before(a[k] as int, a[jb] as int));
        }
        assert(a.take(m) =~= b.take(m));
    }
}

/// Where two rankings agree before `k` and differ at `k`, the one's entry at
/// `k` stands later in the other.
proof fn lemma_later_in_other(
    before: spec_fn(int, int) -> bool,
    n: int,
    a: Seq<usize>,
    b: Seq<usize>,
    k: int,
)
    requires
        orders_positions(before, n),
        is_ranked_by(before, n, a),
        is_ranked_by(before, n, b),
        0 <= k < n,
        forall|i: int| 0 <= i < k ==> a[i] == b[i],
        a[k] != b[k],
    ensures
        exists|j: int| k < j < b.len() && b[j] == a[k],
{
    let v = a[k];
    assert(b.contains(v));
    let j = choose|j: int| 0 <= j < b.len() && b[j] == v;
    if j < k {
        assert(a[j] == v);
        assert(before(a[j] as int, a[k] as int));
    }
    assert(k < j < b.len() && b[j] == a[k]);
}

/// Putting position `i` into the ranking of the positions below it, behind
/// the last entry that comes before it, gives the ranking of the positions
/// up to `i`.
pub proof fn lemma_place(
    before: spec_fn(int, int) -> bool,
    n: int,
    order: Seq<usize>,
    i: int,
    p: int,
)
    requires
        orders_positions(before, n),
        0 <= i < n,
        i <= usize::MAX,
        is_sorted_by(before, n, order),
        forall|j: int| 0 <= j < order.len() ==> (#[trigger] order[j]) < i,
        forall|v: usize| v < i ==> #[trigger] order.contains(v),
        0 <= p <= order.len(),
        forall|j: int| p <= j < order.len() ==> before(i, #[trigger] order[j] as int),
        p > 0 ==> before(order[p - 1] as int, i),
    ensures
        is_sorted_by(before, n, order.insert(p, i as usize)),
        forall|j: int|
            0 <= j < order.len() + 1 ==> (#[trigger] order.insert(p, i as usize)[j]) < i + 1,
        forall|v: usize| v < i + 1 ==> #[trigger] order.insert(p, i as usize).contains(v),
{
    let next = order.insert(p, i as usize);
    assert forall|j: int| 0 <= j < next.len() implies (#[trigger] next[j]) < i + 1 by {
        if j < p {
            assert(next[j] == order[j]);
        } else if j > p {
            assert(next[j] == order[j - 1]);
        }
    }
    assert forall|j: int, k: int| 0 <= j < k < next.len() implies before(
        #[trigger] next[j] as int,
        #[trigger] next[k] as int,
    ) by {
        if k < p {
            assert(next[j] == order[j] && next[k] == order[k]);
        } else if k == p {
            assert(next[j] == order[j] && next[k] == i);
            if j < p - 1 {
                assert(before(order[j] as int, order[p - 1] as int));
                assert(before(order[p - 1] as int, i));
            }
        } else if j < p {
            assert(next[j] == order[j] && next[k] == order[k - 1]);
        } else if j == p {
            assert(next[j] == i && next[k] == order[k - 1]);
        } else {
            assert(next[j] == order[j - 1] && next[k] == order[k - 1]);
        }
    }
    assert forall|v: usize| v < i + 1 implies #[trigger] next.contains(v) by {
        if v == i {
            assert(next[p] == v);
        } else {
            assert(order.contains(v));
            let j = choose|j: int| 0 <= j < order.len() && order[j] == v;
            if j < p {
                assert(next[j] == v);
            } else {
                assert(next[j + 1] == v);
            }
        }
    }
}

/// A ranking holds no position twice.
pub proof fn lemma_rank_no_duplicates(before: spec_fn(int, int) -> bool, n: int, order: Seq<usize>)
    requires
        orders_positions(before, n),
        is_sorted_by(before, n, order),
    ensures
        order.no_duplicates(),
{
    assert forall|j: int, k: int| 0 <= j < order.len() && 0 <= k < order.len() && j != k implies order[j]
        != order[k] by {
        if j < k {
            assert(before(order[j] as int, order[k] as int));
        } else {
            assert(before(order[k] as int, order[j] as int));
        }
    }
}

/// A list arranged by an order that holds every position once has the
/// items of the list, each as often as the list has it.
pub proof fn lemma_arranged_same_items<T>(items: Seq<T>, order: Seq<usize>)
    requires
        order.len() == items.len() <= usize::MAX,
        order.no_duplicates(),
        forall|j: int| 0 <= j < order.len() ==> (#[trigger] order[j]) < items.len(),
        forall|v: usize| v < items.len() ==> #[trigger] order.contains(v),
    ensures
        arranged(items, order).to_multiset() == items.to_multiset(),
    decreases items.len(),
{
    broadcast use vstd::multiset::group_multiset_axioms;

    let n = items.len() as int;
    let all = arranged(items, order);
    if n == 0 {
        assert(all =~= items);
    } else {
        let last = (n - 1) as usize;
        assert(order.contains(last));
        let q = choose|q: int| 0 <= q < order.len() && order[q] == last;
        let rest = order.remove(q);
        let fewer = items.drop_last();
        assert forall|j: int| 0 <= j < rest.len() implies (#[trigger] rest[j]) < fewer.len() by {
            if j < q {
                assert(rest[j] == order[j]);
            } else {
                assert(rest[j] == order[j + 1]);
            }
        }
        assert forall|v: usize| v < fewer.len() implies #[trigger] rest.contains(v) by {
            assert(order.contains(v));
            let j = choose|j: int| 0 <= j < order.len() && order[j] == v;
            if j < q {
                assert(rest[j] == v);
            } else {
                assert(rest[j - 1] == v);
            }
        }
        assert(rest.no_duplicates());
        lemma_arranged_same_items(fewer, rest);
        assert(arranged(fewer, rest) =~= all.remove(q));
        vstd::seq_lib::to_multiset_remove(all, q);
        assert(items =~= fewer.push(items[n - 1]));
        vstd::seq_lib::to_multiset_build(fewer, items[n - 1]);
        vstd::seq_lib::to_multiset_contains(all, items[n - 1]);
        assert(all[q] == items[n - 1]);
        assert(all.contains(items[n - 1]));
        assert(all.to_multiset() =~= items.to_multiset());
    }
}

/// Where position `i` goes into the ranking of the positions before it:
/// behind the last entry that it does not come before.
spec fn slot(before: spec_fn(int, int) -> bool, order: Seq<usize>, i: int, p: int) -> int
    decreases p,
{
    if p <= 0 || !before(i, order[p - 1] as int) {
        p
    } else {
        slot(before, order, i, p - 1)
    }
}

/// The ranking of the first `m` positions, built one position after the
/// other.
spec fn built(before: spec_fn(int, int) -> bool, m: int) -> Seq<usize>
    decreases m,
{
    if m <= 0 {
        Seq::empty()
    } else {
        let earlier = built(before, m - 1);
        earlier.insert(slot(before, earlier, m - 1, earlier.len() as int), (m - 1) as usize)
    }
}

proof fn lemma_slot(before: spec_fn(int, int) -> bool, n: int, order: Seq<usize>, i: int, p: int)
    requires
        orders_positions(before, n),
        0 <= p <= order.len(),
        0 <= i < n,
        forall|j: int| 0 <= j < order.len() ==> (#[trigger] order[j]) < i,
        forall|j: int| p <= j < order.len() ==> before(i, #[trigger] order[j] as int),
    ensures
        ({
            let q = slot(before, order, i, p);
            &&& 0 <= q <= p
            &&& forall|j: int| q <= j < order.len() ==> before(i, #[trigger] order[j] as int)
            &&& q > 0 ==> before(order[q - 1] as int, i)
        }),
    decreases p,
{
    if p <= 0 || !before(i, order[p - 1] as int) {
        if p > 0 {
            assert(order[p - 1] < i);
        }
    } else {
        lemma_slot(before, n, order, i, p - 1);
    }
}

proof fn lemma_built(before: spec_fn(int, int) -> bool, n: int, m: int)
    requires
        orders_positions(before, n),
        0 <= m <= n <= usize::MAX,
    ensures
        built(before, m).len() == m,
        is_sorted_by(before, n, built(before, m)),
        forall|j: int| 0 <= j < m ==> (#[trigger] built(before, m)[j]) < m,
        forall|v: usize| v < m ==> #[trigger] built(before, m).contains(v),
    decreases m,
{
    if m > 0 {
        lemma_built(before, n, m - 1);
        let earlier = built(before, m - 1);
        lemma_slot(before, n, earlier, m - 1, earlier.len() as int);
        lemma_place(
            before,
            n,
            earlier,
            m - 1,
            slot(before, earlier, m - 1, earlier.len() as int),
        );
    }
}

/// The positions below `n`, where they are machine numbers, have a ranking
/// by every strict total order, and `rank_by` is it.
pub proof fn lemma_rank_exists(before: spec_fn(int, int) -> bool, n: int)
    requires
        orders_positions(before, n),
        0 <= n <= usize::MAX,
    ensures
        is_ranked_by(before, n, rank_by(before, n)),
{
    lemma_built(before, n, n);
    assert(is_ranked_by(before, n, built(before, n)));
}

/// Every list of keys whose positions are machine numbers has a stable
/// ranking, and `ranking` is it.
pub proof fn lemma_ranking_exists(keys: Seq<i128>, descending: bool)
    requires
        keys.len() <= usize::MAX,
    ensures
        is_stable_order(keys, descending, ranking(keys, descending)),
{
    lemma_key_order(keys, descending);
    lemma_rank_exists(key_order(keys, descending), keys.len() as int);
}

/// Whether an entry with key `entry` must come after a later item with key `key`.
fn follows(entry: i128, key: i128, descending: bool) -> (out: bool)
    ensures
        out == if descending {
            entry < key
        } else {
            entry > key
        },
{
    if descending {
        entry < key
    } else {
        entry > key
    }
}

/// Ranks the positions of `keys`: by key, descending or ascending, and among
/// equal keys by position.
pub fn stable_order(keys: &Vec<i128>, descending: bool) -> (order: Vec<usize>)
    ensures
        is_stable_order(keys@, descending, order@),
        order@ == ranking(keys@, descending),
{
    let ghost before = key_order(keys@, descending);
    let ghost n = keys.len() as int;
    proof {
        lemma_key_order(keys@, descending);
    }
    let mut order: Vec<usize> = Vec::new();
    let mut i: usize = 0;
    while i < keys.len()
        invariant
            i <= keys.len(),
            n == keys.len(),
            before == key_order(keys@, descending),
            orders_positions(before, n),
            order.len() == i,
            is_sorted_by(before, n, order@),
            forall|j: int| 0 <= j < order.len() ==> (#[trigger] order[j]) < i,
            forall|v: usize| v < i ==> #[trigger] order@.contains(v),
        decreases keys.len() - i,
    {
        let key = keys[i];
        // The new position goes behind every entry that it does not precede.
        let mut p: usize = order.len();
        while p > 0 && follows(keys[order[p - 1]], key, descending)
            invariant
                p <= order.len(),
                order.len() == i,
                i < keys.len(),
                key == keys[i as int],
                before == key_order(keys@, descending),
                forall|j: int| 0 <= j < order.len() ==> (#[trigger] order[j]) < i,
                forall|j: int| p <= j < order.len() ==> before(i as int, #[trigger] order[j] as int),
            decreases p,
        {
            p -= 1;
        }
        proof {
            if p > 0 {
                assert(order[p - 1] < i);
                assert(before(order[p - 1] as int, i as int));
            }
            lemma_place(before, n, order@, i as int, p as int);
        }
        order.insert(p, i);
        i += 1;
    }
    proof {
        lemma_ranking_exists(keys@, descending);
        lemma_stable_order_unique(keys@, descending, order@, ranking(keys@, descending));
    }
    order
}

} // verus!
