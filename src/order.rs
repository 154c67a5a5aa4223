use vstd::prelude::*;

verus! {

/// In a stable ascending order by `keys`, index `a` comes before index `b`:
/// its key is smaller, or the keys are equal and `a` is the earlier index.
pub open spec fn comes_before(keys: Seq<i64>, a: int, b: int) -> bool {
    keys[a] < keys[b] || (keys[a] == keys[b] && a < b)
}

/// Index `j` occurs in `order`.
pub open spec fn lists(order: Seq<usize>, j: int) -> bool {
    exists|k: int| 0 <= k < order.len() && #[trigger] order[k] == j
}

/// `order` lists every index of `keys` exactly once, in stable ascending
/// order of the keys.
pub open spec fn is_stable_order(keys: Seq<i64>, order: Seq<usize>) -> bool {
    &&& order.len() == keys.len()
    &&& forall|k: int| 0 <= k < order.len() ==> #[trigger] order[k] < keys.len()
    &&& forall|j: int| 0 <= j < keys.len() ==> #[trigger] lists(order, j)
    &&& forall|k1: int, k2: int|
        0 <= k1 < k2 < order.len() ==> comes_before(keys, #[trigger] order[k1] as int, #[trigger] order[k2] as int)
}

/// The indices of `keys` in stable ascending order of their keys.
pub fn stable_order(keys: &Vec<i64>) -> (r: Vec<usize>)
    ensures
        is_stable_order(keys@, r@),
{
    let n = keys.len();
    let mut r: Vec<usize> = Vec::with_capacity(n);
    let mut i: usize = 0;
    while i < n
        invariant
            n == keys@.len(),
            i <= n,
            r@.len() == i,
            forall|k: int| 0 <= k < r@.len() ==> #[trigger] r@[k] < i,
            forall|j: int| 0 <= j < i ==> #[trigger] lists(r@, j),
            forall|k1: int, k2: int|
                0 <= k1 < k2 < r@.len() ==> comes_before(keys@, #[trigger] r@[k1] as int, #[trigger] r@[k2] as int),
        decreases n - i,
    {
        let ki = keys[i];
        let mut p: usize = 0;
        while p < r.len() && keys[r[p]] <= ki
            invariant
                n == keys@.len(),
                i < n,
                p <= r@.len(),
                forall|k: int| 0 <= k < r@.len() ==> #[trigger] r@[k] < i,
                forall|q: int| 0 <= q < p ==> #[trigger] keys@[r@[q] as int] <= ki,
            decreases r@.len() - p,
        {
            p = p + 1;
        }
        let ghost old_r = r@;
        proof {
            assert forall|q: int| p <= q < old_r.len() implies #[trigger] keys@[old_r[q] as int] > ki by {
                if q > p {
                    assert(comes_before(keys@, old_r[p as int] as int, old_r[q] as int));
                }
            }
        }
        r.insert(p, i);
        proof {
            assert(r@ == old_r.insert(p as int, i));
            assert forall|k: int| 0 <= k < r@.len() implies #[trigger] r@[k] < i + 1 by {
                if k < p {
                    assert(r@[k] == old_r[k]);
                } else if k > p {
                    assert(r@[k] == old_r[k - 1]);
                }
            }
            assert forall|j: int| 0 <= j < i + 1 implies #[trigger] lists(r@, j) by {
                if j == i {
                    assert(r@[p as int] == j);
                } else {
                    assert(lists(old_r, j));
                    let k = choose|k: int| 0 <= k < old_r.len() && #[trigger] old_r[k] == j;
                    if k < p {
                        assert(r@[k] == j);
                    } else {
                        assert(r@[k + 1] == j);
                    }
                }
            }
            assert forall|k1: int, k2: int|
                0 <= k1 < k2 < r@.len() implies comes_before(keys@, #[trigger] r@[k1] as int, #[trigger] r@[k2] as int) by {
                if k1 < p && k2 < p {
                    assert(comes_before(keys@, old_r[k1] as int, old_r[k2] as int));
                } else if k1 < p && k2 == p {
                    assert(keys@[old_r[k1] as int] <= ki);
                } else if k1 < p {
                    assert(comes_before(keys@, old_r[k1] as int, old_r[k2 - 1] as int));
                } else if k1 == p {
                    assert(keys@[old_r[k2 - 1] as int] > ki);
                } else {
                    assert(comes_before(keys@, old_r[k1 - 1] as int, old_r[k2 - 1] as int));
                }
            }
        }
        i = i + 1;
    }
    r
}

/// `best` is the index of the smallest positive key among the first `n`,
/// the earliest one among equals; `None` when none of them is positive.
pub open spec fn is_nearest_positive(keys: Seq<i64>, n: int, best: Option<usize>) -> bool {
    match best {
        Some(b) => {
            &&& b < n
            &&& keys[b as int] > 0
            &&& forall|j: int| 0 <= j < n && #[trigger] keys[j] > 0 ==> keys[b as int] < keys[j]
                || (keys[b as int] == keys[j] && b <= j)
        },
        None => forall|j: int| 0 <= j < n ==> #[trigger] keys[j] <= 0,
    }
}

/// The index of the smallest positive key, the earliest one among equals;
/// `None` when no key is positive.
pub fn nearest_positive(keys: &Vec<i64>) -> (r: Option<usize>)
    ensures
        is_nearest_positive(keys@, keys@.len() as int, r),
{
    let mut best: Option<usize> = None;
    let mut i: usize = 0;
    while i < keys.len()
        invariant
            i <= keys@.len(),
            is_nearest_positive(keys@, i as int, best),
        decreases keys@.len() - i,
    {
        let k = keys[i];
        if k > 0 {
            match best {
                None => {
                    best = Some(i);
                },
                Some(b) => {
                    if k < keys[b] {
                        best = Some(i);
                    }
                },
            }
        }
        i = i + 1;
    }
    best
}

} // verus!
