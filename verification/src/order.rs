//! Putting things in order, those of one rank as they were listed.

use vstd::prelude::*;

verus! {

/// What has a rank.
pub trait Rank: Sized {
    /// This one comes before the other.
    spec fn precedes(&self, other: &Self) -> bool;

    /// Whether this one comes before the other.
    fn before(&self, other: &Self) -> (before: bool)
        ensures
            before == self.precedes(other),
    ;

    /// Nothing comes both before and after another, and whatever lies between
    /// two comes after the first or before the second.
    proof fn lemma_ranks(a: Self, b: Self, c: Self)
        ensures
            a.precedes(&b) ==> !b.precedes(&a),
            a.precedes(&b) ==> a.precedes(&c) || c.precedes(&b),
    ;
}

impl Rank for u64 {
    open spec fn precedes(&self, other: &Self) -> bool {
        *self < *other
    }

    fn before(&self, other: &Self) -> (before: bool) {
        *self < *other
    }

    proof fn lemma_ranks(a: Self, b: Self, c: Self) {
    }
}

impl Rank for i32 {
    open spec fn precedes(&self, other: &Self) -> bool {
        *self < *other
    }

    fn before(&self, other: &Self) -> (before: bool) {
        *self < *other
    }

    proof fn lemma_ranks(a: Self, b: Self, c: Self) {
    }
}

/// The key at `i` comes before the one at `j`; of two of one rank, the one that
/// is listed first.
pub open spec fn ordered<K: Rank>(keys: Seq<K>, i: int, j: int) -> bool {
    keys[i].precedes(&keys[j]) || (!keys[j].precedes(&keys[i]) && i < j)
}

/// `order` has each place below `len` once.
pub open spec fn each_once(order: Seq<usize>, len: int) -> bool {
    &&& order.len() == len
    &&& forall|i: int| 0 <= i < order.len() ==> 0 <= #[trigger] order[i] < len
    &&& forall|i: int, j: int|
        0 <= i < j < order.len() ==> #[trigger] order[i] != #[trigger] order[j]
    &&& forall|k: int| 0 <= k < len ==> #[trigger] order.contains(k as usize)
}

/// Each place of `order` comes before the ones behind it.
pub open spec fn in_order<K: Rank>(keys: Seq<K>, order: Seq<usize>) -> bool {
    forall|i: int, j: int|
        0 <= i < j < order.len() ==> ordered(
            keys,
            (#[trigger] order[i]) as int,
            (#[trigger] order[j]) as int,
        )
}

/// The places of the keys in order.
pub fn stable_order<K: Rank>(keys: &[K]) -> (order: Vec<usize>)
    ensures
        each_once(order@, keys@.len() as int),
        in_order(keys@, order@),
{
    let mut order: Vec<usize> = Vec::new();
    let mut i: usize = 0;
    while i < keys.len()
        invariant
            i <= keys@.len(),
            each_once(order@, i as int),
            in_order(keys@, order@),
        decreases keys@.len() - i,
    {
        // It goes behind the last that it does not come before.
        let mut at: usize = order.len();
        while at > 0 && keys[i].before(&keys[order[at - 1]])
            invariant
                i < keys@.len(),
                each_once(order@, i as int),
                at <= order@.len(),
                forall|k: int|
                    at <= k < order@.len() ==> keys@[i as int].precedes(
                        &keys@[(#[trigger] order@[k]) as int],
                    ),
            decreases at,
        {
            at = at - 1;
        }
        let ghost before = order@;
        order.insert(at, i);
        proof {
            lemma_placed(keys@, before, i, at as int, order@);
        }
        i = i + 1;
    }
    order
}

proof fn lemma_placed<K: Rank>(
    keys: Seq<K>,
    before: Seq<usize>,
    i: usize,
    at: int,
    after: Seq<usize>,
)
    requires
        i < keys.len(),
        0 <= at <= before.len(),
        each_once(before, i as int),
        in_order(keys, before),
        forall|k: int|
            at <= k < before.len() ==> keys[i as int].precedes(&keys[(#[trigger] before[k]) as int]),
        at > 0 ==> !keys[i as int].precedes(&keys[before[at - 1] as int]),
        after == before.insert(at, i),
    ensures
        each_once(after, i + 1),
        in_order(keys, after),
{
    assert forall|k: int| 0 <= k < after.len() implies #[trigger] after[k] == if k < at {
        before[k]
    } else if k == at {
        i
    } else {
        before[k - 1]
    } by {}
    assert forall|k: int| 0 <= k < i + 1 implies #[trigger] after.contains(k as usize) by {
        if k == i {
            assert(after[at] == i);
        } else {
            assert(before.contains(k as usize));
            let p = before.index_of(k as usize);
            if p < at {
                assert(after[p] == k as usize);
            } else {
                assert(after[p + 1] == k as usize);
            }
        }
    }
    assert forall|a: int, b: int| 0 <= a < b < after.len() implies #[trigger] after[a]
        != #[trigger] after[b] && ordered(keys, after[a] as int, after[b] as int) by {
        let x = if a < at {
            a
        } else {
            a - 1
        };
        let y = if b < at {
            b
        } else {
            b - 1
        };
        if a != at && b != at {
            assert(before[x] != before[y]);
            assert(ordered(keys, before[x] as int, before[y] as int));
        } else if b == at {
            assert(before[x] < i);
            if x < at - 1 {
                assert(ordered(keys, before[x] as int, before[at - 1] as int));
                K::lemma_ranks(
                    keys[i as int],
                    keys[before[x] as int],
                    keys[before[at - 1] as int],
                );
                K::lemma_ranks(
                    keys[before[x] as int],
                    keys[before[at - 1] as int],
                    keys[i as int],
                );
            }
        } else {
            assert(before[y] < i);
        }
    }
}

/// The order is the only one: two orders that each keep it have the same things
/// in the same places.
pub proof fn the_order_is_unique<K: Rank>(keys: Seq<K>, a: Seq<usize>, b: Seq<usize>)
    requires
        each_once(a, keys.len() as int),
        each_once(b, keys.len() as int),
        in_order(keys, a),
        in_order(keys, b),
    ensures
        a == b,
{
    assert forall|k: int| 0 <= k < a.len() implies #[trigger] a[k] == b[k] by {
        lemma_same_at(keys, a, b, k);
    }
    assert(a =~= b);
}

proof fn lemma_same_at<K: Rank>(keys: Seq<K>, a: Seq<usize>, b: Seq<usize>, k: int)
    requires
        each_once(a, keys.len() as int),
        each_once(b, keys.len() as int),
        in_order(keys, a),
        in_order(keys, b),
        0 <= k < a.len(),
    ensures
        a[k] == b[k],
    decreases k,
{
    assert forall|i: int| 0 <= i < k implies #[trigger] a[i] == b[i] by {
        lemma_same_at(keys, a, b, i);
    }
    if a[k] != b[k] {
        assert(b.contains(a[k] as int as usize));
        let p = b.index_of(a[k]);
        assert(a.contains(b[k] as int as usize));
        let q = a.index_of(b[k]);
        if p < k {
            assert(a[p] == b[p]);
        }
        if q < k {
            assert(a[q] == b[q]);
        }
        assert(k < p && k < q);
        assert(ordered(keys, b[k] as int, b[p] as int));
        assert(ordered(keys, a[k] as int, a[q] as int));
        K::lemma_ranks(keys[a[k] as int], keys[b[k] as int], keys[a[k] as int]);
        K::lemma_ranks(keys[b[k] as int], keys[a[k] as int], keys[b[k] as int]);
    }
}

/// Of two places in order, the key at the first precedes that at the second, or neither
/// does and it was listed before.
pub proof fn what_comes_first<K: Rank>(keys: Seq<K>, order: Seq<usize>, i: int, j: int)
    requires
        in_order(keys, order),
        0 <= i < j < order.len(),
    ensures
        keys[order[i] as int].precedes(&keys[order[j] as int]) || order[i] < order[j],
        !keys[order[i] as int].precedes(&keys[order[j] as int]) ==> !keys[order[j] as int].precedes(
            &keys[order[i] as int],
        ),
{
    assert(ordered(keys, order[i] as int, order[j] as int));
}

/// Numbers rank by their size, the smaller first.
pub proof fn numbers_rank_by_size(a: u64, b: u64, c: i32, d: i32)
    ensures
        a.precedes(&b) <==> a < b,
        c.precedes(&d) <==> c < d,
{
}

} // verus!
