use vstd::prelude::*;

verus! {

/// Candidate `a` ranks before candidate `b`: its distance key is smaller,
/// or the keys are equal and `a` comes first in the batch.
pub open spec fn ranks_before(keys: Seq<u64>, a: int, b: int) -> bool {
    keys[a] < keys[b] || (keys[a] == keys[b] && a < b)
}

/// `order` lists candidates of `keys` nearest first, ties in batch order,
/// and leaves out only candidates that rank after every listed one.
pub open spec fn is_nearest_order(keys: Seq<u64>, order: Seq<usize>) -> bool {
    &&& forall|i: int| 0 <= i < order.len() ==> #[trigger] order[i] < keys.len()
    &&& forall|i: int, j: int|
        0 <= i < j < order.len() ==> ranks_before(keys, #[trigger] order[i] as int, #[trigger] order[j] as int)
    &&& forall|x: usize, i: int|
        #![trigger order.contains(x), order[i]]
        x < keys.len() && !order.contains(x) && 0 <= i < order.len() ==> ranks_before(
            keys,
            order[i] as int,
            x as int,
        )
}

/// The number of candidates a query for `k` neighbours among `n` returns.
pub open spec fn nearest_count(n: nat, k: nat) -> nat {
    if k < n {
        k
    } else {
        n
    }
}

proof fn lemma_orders_agree_upto(keys: Seq<u64>, short: Seq<usize>, long: Seq<usize>, i: int)
    requires
        is_nearest_order(keys, short),
        is_nearest_order(keys, long),
        short.len() <= long.len(),
        0 <= i <= short.len(),
    ensures
        forall|q: int| 0 <= q < i ==> short[q] == long[q],
    decreases i,
{
    if i > 0 {
        let i0 = i - 1;
        lemma_orders_agree_upto(keys, short, long, i0);
        let a = short[i0];
        let b = long[i0];
        if a != b {
            if ranks_before(keys, a as int, b as int) {
                if long.contains(a) {
                    let p = choose|p: int| 0 <= p < long.len() && long[p] == a;
                    if p > i0 {
                        assert(ranks_before(keys, long[i0] as int, long[p] as int));
                    } else {
                        assert(short[p] == long[p]);
                        assert(ranks_before(keys, short[p] as int, short[i0] as int));
                    }
                } else {
                    assert(ranks_before(keys, long[i0] as int, a as int));
                }
            } else {
                assert(ranks_before(keys, b as int, a as int));
                if short.contains(b) {
                    let p = choose|p: int| 0 <= p < short.len() && short[p] == b;
                    if p > i0 {
                        assert(ranks_before(keys, short[i0] as int, short[p] as int));
                    } else {
                        assert(short[p] == long[p]);
                        assert(ranks_before(keys, long[p] as int, long[i0] as int));
                    }
                } else {
                    assert(ranks_before(keys, short[i0] as int, b as int));
                }
            }
        }
    }
}

/// A nearest-first order is determined by its length: of two nearest-first
/// orders over the same keys, the shorter is a prefix of the longer. So the
/// answer for `k` neighbours begins with the answer for any smaller `k`,
/// and two answers of the same length are equal.
pub proof fn lemma_nearest_order_prefix(keys: Seq<u64>, short: Seq<usize>, long: Seq<usize>)
    requires
        is_nearest_order(keys, short),
        is_nearest_order(keys, long),
        short.len() <= long.len(),
    ensures
        short == long.take(short.len() as int),
{
    lemma_orders_agree_upto(keys, short, long, short.len() as int);
    assert(short =~= long.take(short.len() as int));
}

/// A nearest-first order reads as such on the distance keys themselves:
/// keys never decrease along it, equal keys keep batch order, and every
/// candidate left out has a key at least as large as every listed one
/// (larger, or equal and later in the batch). So a candidate with a
/// strictly smaller key always comes before one with a larger key.
pub proof fn lemma_nearest_order_by_distance(keys: Seq<u64>, order: Seq<usize>)
    requires
        is_nearest_order(keys, order),
    ensures
        forall|i: int, j: int|
            0 <= i < j < order.len() ==> keys[#[trigger] order[i] as int] <= keys[#[trigger] order[j] as int],
        forall|i: int, j: int|
            0 <= i < j < order.len() && keys[order[i] as int] == keys[order[j] as int] ==> #[trigger] order[i]
                < #[trigger] order[j],
        forall|x: usize, i: int|
            #![trigger order.contains(x), order[i]]
            x < keys.len() && !order.contains(x) && 0 <= i < order.len() ==> keys[order[i] as int]
                <= keys[x as int] && (keys[order[i] as int] == keys[x as int] ==> order[i] < x),
{
    assert forall|i: int, j: int| 0 <= i < j < order.len() implies keys[#[trigger] order[i] as int]
        <= keys[#[trigger] order[j] as int] by {
        assert(ranks_before(keys, order[i] as int, order[j] as int));
    }
    assert forall|x: usize, i: int|
        #![trigger order.contains(x), order[i]]
        x < keys.len() && !order.contains(x) && 0 <= i < order.len() implies keys[order[i] as int]
            <= keys[x as int] && (keys[order[i] as int] == keys[x as int] ==> order[i] < x) by {
        assert(ranks_before(keys, order[i] as int, x as int));
    }
}

fn ranks_before_exec(keys: &[u64], a: usize, b: usize) -> (r: bool)
    requires
        a < keys@.len(),
        b < keys@.len(),
    ensures
        r == ranks_before(keys@, a as int, b as int),
{
    keys[a] < keys[b] || (keys[a] == keys[b] && a < b)
}

/// The positions of the `k` candidates nearest by `distance_keys`, nearest
/// first; candidates at equal distance keep their batch order. Fewer than
/// `k` come back only when the batch holds fewer candidates.
pub fn nearest_order(distance_keys: &[u64], k: usize) -> (order: Vec<usize>)
    ensures
        order@.len() == nearest_count(distance_keys@.len(), k as nat),
        order@.len() <= k && order@.len() <= distance_keys@.len(),
        order@.len() == k || order@.len() == distance_keys@.len(),
        is_nearest_order(distance_keys@, order@),
        forall|i: int, j: int|
            0 <= i < j < order@.len() ==> distance_keys@[#[trigger] order@[i] as int]
                <= distance_keys@[#[trigger] order@[j] as int],
        forall|x: usize, i: int|
            #![trigger order@.contains(x), order@[i]]
            x < distance_keys@.len() && !order@.contains(x) && 0 <= i < order@.len()
                ==> distance_keys@[order@[i] as int] <= distance_keys@[x as int],
{
    let keys = distance_keys;
    let n = keys.len();
    let m = if k < n {
        k
    } else {
        n
    };
    let mut v: Vec<usize> = Vec::new();
    let mut x: usize = 0;
    while x < n
        invariant
            x <= n,
            n == keys@.len(),
            v@.len() == x,
            forall|q: int| 0 <= q < x ==> #[trigger] v@[q] == q,
        decreases n - x,
    {
        v.push(x);
        x = x + 1;
    }
    assert forall|y: usize| y < n implies #[trigger] v@.contains(y) by {
        assert(v@[y as int] == y);
    }
    let mut i: usize = 0;
    while i < m
        invariant
            n == keys@.len(),
            m <= n,
            i <= m,
            v@.len() == n,
            forall|p: int| 0 <= p < n ==> #[trigger] v@[p] < n,
            forall|p: int, q: int| 0 <= p < q < n ==> #[trigger] v@[p] != #[trigger] v@[q],
            forall|y: usize| y < n ==> #[trigger] v@.contains(y),
            forall|a: int, b: int|
                0 <= a < b < i ==> ranks_before(keys@, #[trigger] v@[a] as int, #[trigger] v@[b] as int),
            forall|a: int, b: int|
                0 <= a < i <= b < n ==> ranks_before(keys@, #[trigger] v@[a] as int, #[trigger] v@[b] as int),
        decreases m - i,
    {
        let mut best: usize = i;
        let mut j: usize = i + 1;
        while j < n
            invariant
                n == keys@.len(),
                v@.len() == n,
                i < n,
                i <= best < j <= n,
                forall|p: int| 0 <= p < n ==> #[trigger] v@[p] < n,
                forall|p: int, q: int| 0 <= p < q < n ==> #[trigger] v@[p] != #[trigger] v@[q],
                forall|q: int|
                    i <= q < j && q != best ==> ranks_before(keys@, v@[best as int] as int, #[trigger] v@[q] as int),
            decreases n - j,
        {
            if ranks_before_exec(keys, v[j], v[best]) {
                best = j;
            } else {
                assert(v@[j as int] != v@[best as int]);
            }
            j = j + 1;
        }
        let ghost old_v = v@;
        let a = v[i];
        let b = v[best];
        v.set(i, b);
        v.set(best, a);
        proof {
            assert(v@ == old_v.update(i as int, b).update(best as int, a));
            assert forall|p: int, q: int| 0 <= p < q < n implies #[trigger] v@[p] != #[trigger] v@[q] by {
                let op = if p == i { best as int } else if p == best { i as int } else { p };
                let oq = if q == i { best as int } else if q == best { i as int } else { q };
                assert(v@[p] == old_v[op]);
                assert(v@[q] == old_v[oq]);
                if op < oq {
                    assert(old_v[op] != old_v[oq]);
                } else {
                    assert(old_v[oq] != old_v[op]);
                }
            }
            assert forall|y: usize| y < n implies #[trigger] v@.contains(y) by {
                assert(old_v.contains(y));
                let p = choose|p: int| 0 <= p < n && old_v[p] == y;
                if p == i {
                    assert(v@[best as int] == y);
                } else if p == best {
                    assert(v@[i as int] == y);
                } else {
                    assert(v@[p] == y);
                }
            }
            assert forall|c: int, d: int| 0 <= c < d < i + 1 implies ranks_before(
                keys@,
                #[trigger] v@[c] as int,
                #[trigger] v@[d] as int,
            ) by {
                if d < i {
                    assert(v@[c] == old_v[c] && v@[d] == old_v[d]);
                } else {
                    assert(v@[c] == old_v[c]);
                    assert(v@[d] == old_v[best as int]);
                }
            }
            assert forall|c: int, d: int| 0 <= c < i + 1 <= d < n implies ranks_before(
                keys@,
                #[trigger] v@[c] as int,
                #[trigger] v@[d] as int,
            ) by {
                let od = if d == best { i as int } else { d };
                assert(v@[d] == old_v[od]);
                if c < i {
                    assert(v@[c] == old_v[c]);
                } else {
                    assert(v@[c] == old_v[best as int]);
                    assert(od != best);
                }
            }
        }
        i = i + 1;
    }
    let ghost full = v@;
    v.truncate(m);
    proof {
        assert(v@ == full.subrange(0, m as int));
        assert forall|y: usize, c: int|
            #![trigger v@.contains(y), v@[c]]
            y < keys@.len() && !v@.contains(y) && 0 <= c < v@.len() implies ranks_before(
            keys@,
            v@[c] as int,
            y as int,
        ) by {
            assert(full.contains(y));
            let p = choose|p: int| 0 <= p < n && full[p] == y;
            if p < m {
                assert(v@[p] == y);
            }
            assert(full[c] == v@[c]);
            assert(ranks_before(keys@, full[c] as int, full[p] as int));
        }
        lemma_nearest_order_by_distance(keys@, v@);
    }
    v
}

} // verus!
