//! Lists of identifiers, read as sequences or as sets.

use vstd::prelude::*;

use crate::ids::{SpaceId, WindowId, WindowServerId};

verus! {

/// A value whose executable comparison is equality.
pub trait Id: Copy {
    fn is(&self, other: &Self) -> (same: bool)
        ensures
            same == (*self == *other),
    ;
}

impl Id for SpaceId {
    fn is(&self, other: &Self) -> (same: bool) {
        self.0 == other.0
    }
}

impl Id for WindowId {
    fn is(&self, other: &Self) -> (same: bool) {
        self.pid == other.pid && self.idx == other.idx
    }
}

impl Id for WindowServerId {
    fn is(&self, other: &Self) -> (same: bool) {
        self.0 == other.0
    }
}

impl Id for i32 {
    fn is(&self, other: &Self) -> (same: bool) {
        *self == *other
    }
}

impl Id for usize {
    fn is(&self, other: &Self) -> (same: bool) {
        *self == *other
    }
}

/// Whether `list` holds `item`.
pub fn holds<T: Id>(list: &[T], item: T) -> (held: bool)
    ensures
        held == list@.contains(item),
{
    let mut i: usize = 0;
    while i < list.len()
        invariant
            i <= list@.len(),
            forall|j: int| 0 <= j < i ==> list@[j] != item,
        decreases list@.len() - i,
    {
        if list[i].is(&item) {
            assert(list@[i as int] == item);
            return true;
        }
        i = i + 1;
    }
    false
}

/// `list` without what it already held further left.
pub open spec fn deduped<T>(list: Seq<T>) -> Seq<T>
    decreases list.len(),
{
    if list.len() == 0 {
        list
    } else {
        let front = deduped(list.drop_last());
        if list.drop_last().contains(list.last()) {
            front
        } else {
            front.push(list.last())
        }
    }
}

/// What is left without repetitions is the same set, each element once.
pub proof fn lemma_deduped<T>(list: Seq<T>)
    ensures
        deduped(list).no_duplicates(),
        deduped(list).to_set() == list.to_set(),
        deduped(list).len() == list.to_set().len(),
        list.to_set().finite(),
        forall|x: T| #[trigger] deduped(list).contains(x) == list.contains(x),
    decreases list.len(),
{
    if list.len() == 0 {
        assert(list.to_set() =~= Set::<T>::empty());
    } else {
        let front = list.drop_last();
        let item = list.last();
        lemma_deduped(front);
        assert(list == front.push(item));
        front.lemma_push_to_set_commute(item);
        if front.contains(item) {
            assert(front.to_set().insert(item) =~= front.to_set());
        } else {
            deduped(front).lemma_push_to_set_commute(item);
            assert(!deduped(front).contains(item));
        }
        assert forall|x: T| #[trigger] deduped(list).contains(x) == list.contains(x) by {
            assert(deduped(list).to_set().contains(x) == list.to_set().contains(x));
        }
    }
}

/// The elements of `list`, each where it first stands.
pub fn dedup<T: Id>(list: &[T]) -> (once: Vec<T>)
    ensures
        once@ == deduped(list@),
{
    let mut once: Vec<T> = Vec::new();
    let mut i: usize = 0;
    assert(list@.take(0) =~= Seq::<T>::empty());
    while i < list.len()
        invariant
            i <= list@.len(),
            once@ == deduped(list@.take(i as int)),
        decreases list@.len() - i,
    {
        proof {
            lemma_deduped(list@.take(i as int));
            assert(list@.take(i + 1).drop_last() =~= list@.take(i as int));
            assert(list@.take(i + 1).last() == list@[i as int]);
        }
        if !holds(once.as_slice(), list[i]) {
            once.push(list[i]);
        }
        i = i + 1;
    }
    assert(list@.take(i as int) =~= list@);
    once
}

/// Being held by `list`.
pub open spec fn among<T>(list: Seq<T>) -> spec_fn(T) -> bool {
    |item: T| list.contains(item)
}

/// Not being held by `list`.
pub open spec fn not_among<T>(list: Seq<T>) -> spec_fn(T) -> bool {
    |item: T| !list.contains(item)
}

/// What of `list` is also in `other`, in the order of `list`.
pub fn keep_listed<T: Id>(list: &[T], other: &[T]) -> (kept: Vec<T>)
    ensures
        kept@ == list@.filter(among(other@)),
{
    let mut kept: Vec<T> = Vec::new();
    let mut i: usize = 0;
    while i < list.len()
        invariant
            i <= list@.len(),
            kept@ == list@.take(i as int).filter(among(other@)),
        decreases list@.len() - i,
    {
        proof {
            assert(list@.take(i + 1) =~= list@.take(i as int).push(list@[i as int]));
            list@.take(i as int).lemma_filter_push(list@[i as int], among(other@));
        }
        if holds(other, list[i]) {
            kept.push(list[i]);
        }
        i = i + 1;
    }
    assert(list@.take(i as int) =~= list@);
    kept
}

/// What of `list` is not in `other`, in the order of `list`.
pub fn drop_listed<T: Id>(list: &[T], other: &[T]) -> (kept: Vec<T>)
    ensures
        kept@ == list@.filter(not_among(other@)),
{
    let mut kept: Vec<T> = Vec::new();
    let mut i: usize = 0;
    while i < list.len()
        invariant
            i <= list@.len(),
            kept@ == list@.take(i as int).filter(not_among(other@)),
        decreases list@.len() - i,
    {
        proof {
            assert(list@.take(i + 1) =~= list@.take(i as int).push(list@[i as int]));
            list@.take(i as int).lemma_filter_push(list@[i as int], not_among(other@));
        }
        if !holds(other, list[i]) {
            kept.push(list[i]);
        }
        i = i + 1;
    }
    assert(list@.take(i as int) =~= list@);
    kept
}

/// A copy of `list`.
pub fn copy_list<T: Id>(list: &[T]) -> (copy: Vec<T>)
    ensures
        copy@ == list@,
{
    let mut copy: Vec<T> = Vec::new();
    let mut i: usize = 0;
    while i < list.len()
        invariant
            i <= list@.len(),
            copy@ == list@.take(i as int),
        decreases list@.len() - i,
    {
        copy.push(list[i]);
        assert(list@.take(i + 1) =~= list@.take(i as int).push(list@[i as int]));
        i = i + 1;
    }
    assert(list@.take(i as int) =~= list@);
    copy
}

/// Adds `more` behind `list`.
pub fn append_list<T: Id>(list: &mut Vec<T>, more: &[T])
    ensures
        final(list)@ == old(list)@ + more@,
{
    let mut i: usize = 0;
    assert(more@.take(0) =~= Seq::<T>::empty());
    let ghost before = list@;
    assert(before + more@.take(0) =~= before);
    while i < more.len()
        invariant
            i <= more@.len(),
            list@ == before + more@.take(i as int),
        decreases more@.len() - i,
    {
        list.push(more[i]);
        assert(before + more@.take(i + 1) =~= (before + more@.take(i as int)).push(more@[i as int]));
        i = i + 1;
    }
    assert(more@.take(i as int) =~= more@);
}

/// The first position at which `item` stands, if it does.
pub open spec fn first_at<T>(list: Seq<T>, item: T, at: int) -> bool {
    0 <= at < list.len() && list[at] == item && forall|i: int| 0 <= i < at ==> list[i] != item
}

/// Where `item` first stands in `list`.
pub fn position<T: Id>(list: &[T], item: T) -> (at: Option<usize>)
    ensures
        match at {
            Some(at) => first_at(list@, item, at as int),
            None => !list@.contains(item),
        },
{
    let mut i: usize = 0;
    while i < list.len()
        invariant
            i <= list@.len(),
            forall|j: int| 0 <= j < i ==> list@[j] != item,
        decreases list@.len() - i,
    {
        if list[i].is(&item) {
            return Some(i);
        }
        i = i + 1;
    }
    None
}

/// A set of identifiers.
#[derive(Clone, Debug, PartialEq, Eq)]
pub struct IdSet<T> {
    pub items: Vec<T>,
}

impl<T: Id> IdSet<T> {
    /// Nothing is held twice.
    pub open spec fn wf(&self) -> bool {
        self.items@.no_duplicates()
    }

    pub open spec fn view(&self) -> Set<T> {
        self.items@.to_set()
    }

    pub fn new() -> (set: Self)
        ensures
            set.wf(),
            set@ == Set::<T>::empty(),
            set.items@.len() == 0,
    {
        let set = IdSet { items: Vec::new() };
        assert(set@ =~= Set::<T>::empty());
        set
    }

    pub fn contains(&self, item: T) -> (held: bool)
        ensures
            held == self@.contains(item),
    {
        holds(self.items.as_slice(), item)
    }

    pub fn is_empty(&self) -> (empty: bool)
        ensures
            empty == (self@ == Set::<T>::empty()),
    {
        proof {
            if self.items@.len() > 0 {
                assert(self@.contains(self.items@[0]));
            } else {
                assert(self@ =~= Set::<T>::empty());
            }
        }
        self.items.len() == 0
    }

    /// Puts `item` in; whether it was not there.
    pub fn insert(&mut self, item: T) -> (new: bool)
        requires
            old(self).wf(),
        ensures
            final(self).wf(),
            new == !old(self)@.contains(item),
            final(self)@ == old(self)@.insert(item),
    {
        if holds(self.items.as_slice(), item) {
            assert(self@.insert(item) =~= self@);
            return false;
        }
        proof {
            self.items@.lemma_push_to_set_commute(item);
        }
        self.items.push(item);
        true
    }

    /// Takes `item` out; whether it was there.
    pub fn remove(&mut self, item: T) -> (held: bool)
        requires
            old(self).wf(),
        ensures
            final(self).wf(),
            held == old(self)@.contains(item),
            final(self)@ == old(self)@.remove(item),
    {
        match position(self.items.as_slice(), item) {
            Some(at) => {
                let ghost before = self.items@;
                assert(before.contains(item));
                let _ = self.items.remove(at);
                proof {
                    let after = self.items@;
                    assert(after == before.remove(at as int));
                    assert forall|x: T| #[trigger]
                        after.to_set().contains(x) == before.to_set().remove(item).contains(x) by {
                        if before.contains(x) && x != item {
                            let i = choose|i: int| 0 <= i < before.len() && before[i] == x;
                            let to = if i < at { i } else { i - 1 };
                            assert(after[to] == x);
                        }
                        if after.contains(x) {
                            let i = choose|i: int| 0 <= i < after.len() && after[i] == x;
                            let from = if i < at { i } else { i + 1 };
                            assert(before[from] == x);
                            assert(from != at);
                            assert(before[from] != before[at as int]);
                        }
                    }
                    assert(after.to_set() =~= before.to_set().remove(item));
                    assert(after.no_duplicates()) by {
                        assert forall|i: int, j: int|
                            0 <= i < after.len() && 0 <= j < after.len() && i != j implies after[i]
                            != after[j] by {
                            let fi = if i < at { i } else { i + 1 };
                            let fj = if j < at { j } else { j + 1 };
                            assert(after[i] == before[fi]);
                            assert(after[j] == before[fj]);
                        }
                    }
                }
                true
            },
            None => {
                assert(self@.remove(item) =~= self@);
                false
            },
        }
    }

    /// Puts every one of `more` in.
    pub fn extend(&mut self, more: &[T])
        requires
            old(self).wf(),
        ensures
            final(self).wf(),
            final(self)@ == old(self)@.union(more@.to_set()),
    {
        let ghost before = self@;
        let mut i: usize = 0;
        assert(before.union(more@.take(0).to_set()) =~= before);
        while i < more.len()
            invariant
                i <= more@.len(),
                self.wf(),
                self@ == before.union(more@.take(i as int).to_set()),
            decreases more@.len() - i,
        {
            proof {
                assert(more@.take(i + 1) =~= more@.take(i as int).push(more@[i as int]));
                more@.take(i as int).lemma_push_to_set_commute(more@[i as int]);
                assert(before.union(more@.take(i as int).to_set()).insert(more@[i as int])
                    =~= before.union(more@.take(i as int).to_set().insert(more@[i as int])));
            }
            let _ = self.insert(more[i]);
            i = i + 1;
        }
        assert(more@.take(i as int) =~= more@);
    }
}

/// `item`, if it is `due`.
#[verifier::opaque]
pub open spec fn if_due<T>(due: bool, item: T) -> Seq<T> {
    if due {
        seq![item]
    } else {
        seq![]
    }
}

/// Adds `item` behind `list`, if it is `due`.
pub fn push_when<T>(list: &mut Vec<T>, due: bool, item: T)
    ensures
        final(list)@ == old(list)@ + if_due(due, item),
{
    let ghost before = list@;
    proof {
        reveal(if_due);
    }
    if due {
        list.push(item);
        assert(list@ =~= before + seq![item]);
    } else {
        assert(before + seq![] =~= before);
    }
}

/// What passes a filter comes out behind as many as pass it before.
pub proof fn lemma_filter_at<T>(list: Seq<T>, p: spec_fn(T) -> bool, at: int)
    requires
        0 <= at < list.len(),
        p(list[at]),
    ensures
        list.take(at).filter(p).len() < list.filter(p).len(),
        list.filter(p)[list.take(at).filter(p).len() as int] == list[at],
    decreases list.len(),
{
    reveal(Seq::filter);
    let front = list.drop_last();
    if at < list.len() - 1 {
        lemma_filter_at(front, p, at);
        assert(front.take(at) =~= list.take(at));
    } else {
        assert(list.take(at) =~= front);
    }
}

/// What comes out of a filter was in the list, behind as many that pass it as
/// come out before.
pub proof fn lemma_filter_from<T>(list: Seq<T>, p: spec_fn(T) -> bool, k: int) -> (at: int)
    requires
        0 <= k < list.filter(p).len(),
    ensures
        0 <= at < list.len(),
        p(list[at]),
        list.filter(p)[k] == list[at],
        list.take(at).filter(p).len() == k,
    decreases list.len(),
{
    reveal(Seq::filter);
    let front = list.drop_last();
    if k < front.filter(p).len() {
        let at = lemma_filter_from(front, p, k);
        assert(front.take(at) =~= list.take(at));
        at
    } else {
        assert(list.take(list.len() - 1) =~= front);
        list.len() - 1
    }
}

/// Two filters that agree on a list let the same through.
pub proof fn lemma_filter_same<T>(list: Seq<T>, p: spec_fn(T) -> bool, q: spec_fn(T) -> bool)
    requires
        forall|i: int| 0 <= i < list.len() ==> p(#[trigger] list[i]) == q(list[i]),
    ensures
        list.filter(p) == list.filter(q),
    decreases list.len(),
{
    reveal(Seq::filter);
    if list.len() > 0 {
        let front = list.drop_last();
        assert forall|i: int| 0 <= i < front.len() implies p(#[trigger] front[i]) == q(front[i]) by {
            assert(front[i] == list[i]);
        }
        lemma_filter_same(front, p, q);
        assert(p(list[list.len() - 1]) == q(list[list.len() - 1]));
    }
}

/// A filter lets through what of the list passes it, and nothing else.
pub proof fn lemma_filter_holds<T>(list: Seq<T>, p: spec_fn(T) -> bool, item: T)
    ensures
        list.filter(p).contains(item) <==> list.contains(item) && p(item),
{
    if list.contains(item) && p(item) {
        let at = list.index_of(item);
        lemma_filter_at(list, p, at);
    }
    if list.filter(p).contains(item) {
        let k = list.filter(p).index_of(item);
        let at = lemma_filter_from(list, p, k);
        assert(list[at] == item);
    }
}

/// A list that is picked from and mapped holds what its elements give, and
/// nothing else.
pub proof fn lemma_filter_map_holds<T, U>(list: Seq<T>, f: spec_fn(T) -> Option<U>, item: U)
    ensures
        list.filter_map(f).contains(item) <==> exists|i: int|
            0 <= i < list.len() && f(#[trigger] list[i]) == Some(item),
    decreases list.len(),
{
    if list.len() > 0 {
        let front = list.drop_last();
        lemma_filter_map_holds(front, f, item);
        list.lemma_filter_map_take_succ(f, list.len() - 1);
        assert(list.take(list.len() - 1) =~= front);
        assert(list.take(list.len() as int) =~= list);
        let before = front.filter_map(f);
        let after = list.filter_map(f);
        if before.contains(item) {
            let k = before.index_of(item);
            assert(after[k] == item);
            let i = choose|i: int| 0 <= i < front.len() && f(#[trigger] front[i]) == Some(item);
            assert(f(list[i]) == Some(item));
        }
        if f(list.last()) == Some(item) {
            assert(after[before.len() as int] == item);
            assert(f(list[list.len() - 1]) == Some(item));
        }
        if after.contains(item) {
            let k = after.index_of(item);
            if k < before.len() {
                assert(before[k] == item);
            } else {
                assert(f(list[list.len() - 1]) == Some(item));
            }
        }
        if exists|i: int| 0 <= i < list.len() && f(#[trigger] list[i]) == Some(item) {
            let i = choose|i: int| 0 <= i < list.len() && f(#[trigger] list[i]) == Some(item);
            if i < front.len() {
                assert(f(front[i]) == Some(item));
            }
        }
    } else {
        assert(list.filter_map(f).len() == 0);
    }
}

/// What an element of a list gives comes behind what those before it give.
pub proof fn lemma_filter_map_at<T, U>(list: Seq<T>, f: spec_fn(T) -> Option<U>, at: int)
    requires
        0 <= at < list.len(),
        f(list[at]) is Some,
    ensures
        list.take(at).filter_map(f).len() < list.filter_map(f).len(),
        list.filter_map(f)[list.take(at).filter_map(f).len() as int] == f(list[at])->0,
    decreases list.len(),
{
    let front = list.drop_last();
    list.lemma_filter_map_take_succ(f, list.len() - 1);
    assert(list.take(list.len() - 1) =~= front);
    assert(list.take(list.len() as int) =~= list);
    if at < list.len() - 1 {
        lemma_filter_map_at(front, f, at);
        assert(front.take(at) =~= list.take(at));
    }
}

/// One more element at the end of a list adds what it gives, if it gives anything.
pub proof fn lemma_filter_map_push<T, U>(list: Seq<T>, item: T, f: spec_fn(T) -> Option<U>)
    ensures
        Seq::<T>::empty().filter_map(f) == Seq::<U>::empty(),
        f(item) is Some ==> list.push(item).filter_map(f) == list.filter_map(f).push(f(item)->0),
        f(item) is None ==> list.push(item).filter_map(f) == list.filter_map(f),
{
    assert(list.push(item).drop_last() =~= list);
}

/// One more element at the end of a list is added if the predicate holds of it.
pub proof fn lemma_filter_push<T>(list: Seq<T>, item: T, p: spec_fn(T) -> bool)
    ensures
        Seq::<T>::empty().filter(p) == Seq::<T>::empty(),
        p(item) ==> list.push(item).filter(p) == list.filter(p).push(item),
        !p(item) ==> list.push(item).filter(p) == list.filter(p),
{
    reveal(Seq::filter);
    assert(list.push(item).drop_last() =~= list);
}

/// The steps come in the order of their ranks, none twice, and none above `top`.
#[verifier::opaque]
pub open spec fn rising<T>(list: Seq<T>, rank: spec_fn(T) -> int, top: int) -> bool {
    &&& forall|i: int, j: int|
        0 <= i < j < list.len() ==> rank(#[trigger] list[i]) < rank(#[trigger] list[j])
    &&& forall|i: int| 0 <= i < list.len() ==> rank(#[trigger] list[i]) <= top
}

/// A step of a higher rank than all before it comes behind them, if it is due; any
/// other step is there as it was.
pub proof fn lemma_rising<T>(
    list: Seq<T>,
    due: bool,
    item: T,
    rank: spec_fn(T) -> int,
    top: int,
    other: T,
)
    requires
        rising(list, rank, top),
        top < rank(item),
    ensures
        rising(list + if_due(due, item), rank, rank(item)),
        (list + if_due(due, item)).contains(other) <==> list.contains(other) || (due && other
            == item),
{
    reveal(if_due);
    reveal(rising);
    let after = list + if_due(due, item);
    if list.contains(other) {
        let i = list.index_of(other);
        assert(after[i] == other);
    }
    if due && other == item {
        assert(after[list.len() as int] == other);
    }
    if after.contains(other) {
        let i = after.index_of(other);
        if i < list.len() {
            assert(list[i] == other);
        }
    }
}

/// Nothing comes in order.
pub proof fn lemma_nothing_rises<T>(rank: spec_fn(T) -> int, other: T)
    ensures
        rising(Seq::<T>::empty(), rank, -1),
        !Seq::<T>::empty().contains(other),
{
    reveal(rising);
}

/// Of two steps that come in order the earlier has the lower rank.
pub proof fn lemma_rises<T>(list: Seq<T>, rank: spec_fn(T) -> int, top: int, i: int, j: int)
    requires
        rising(list, rank, top),
        0 <= i < j < list.len(),
    ensures
        rank(list[i]) < rank(list[j]),
{
    reveal(rising);
}

/// One more item is kept, behind the others, if it is new.
pub proof fn what_is_kept_once<T>(list: Seq<T>, one: T)
    ensures
        deduped(Seq::<T>::empty()).len() == 0,
        list.contains(one) ==> deduped(list.push(one)) == deduped(list),
        !list.contains(one) ==> deduped(list.push(one)) == deduped(list).push(one),
{
    assert(list.push(one).drop_last() =~= list);
}

} // verus!
