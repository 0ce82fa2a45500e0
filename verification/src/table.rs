//! Small maps and sets kept in insertion order.
//!
//! The tables of the manager hold a handful of windows or desktops each, and
//! several decisions depend on the order in which entries are walked, so they
//! are vectors whose keys occur once.

use vstd::prelude::*;

use crate::ids::{SpaceId, WindowId, WindowServerId};

verus! {

/// A value that can be looked up by.
pub trait Key: Sized {
    /// What two equal keys have in common.
    type Model;

    spec fn model(&self) -> Self::Model;

    fn same(&self, other: &Self) -> (same: bool)
        ensures
            same == (self.model() == other.model()),
    ;

    fn copied(&self) -> (copy: Self)
        ensures
            copy.model() == self.model(),
    ;
}

impl Key for SpaceId {
    type Model = SpaceId;

    open spec fn model(&self) -> SpaceId {
        *self
    }

    fn same(&self, other: &Self) -> (same: bool) {
        self.0 == other.0
    }

    fn copied(&self) -> (copy: Self) {
        *self
    }
}

impl Key for WindowId {
    type Model = WindowId;

    open spec fn model(&self) -> WindowId {
        *self
    }

    fn same(&self, other: &Self) -> (same: bool) {
        self.pid == other.pid && self.idx == other.idx
    }

    fn copied(&self) -> (copy: Self) {
        *self
    }
}

impl Key for WindowServerId {
    type Model = WindowServerId;

    open spec fn model(&self) -> WindowServerId {
        *self
    }

    fn same(&self, other: &Self) -> (same: bool) {
        self.0 == other.0
    }

    fn copied(&self) -> (copy: Self) {
        *self
    }
}

impl Key for i32 {
    type Model = i32;

    open spec fn model(&self) -> i32 {
        *self
    }

    fn same(&self, other: &Self) -> (same: bool) {
        *self == *other
    }

    fn copied(&self) -> (copy: Self) {
        *self
    }
}

impl Key for String {
    type Model = Seq<char>;

    open spec fn model(&self) -> Seq<char> {
        self@
    }

    fn same(&self, other: &Self) -> (same: bool) {
        *self == *other
    }

    fn copied(&self) -> (copy: Self) {
        self.clone()
    }
}

/// A map from `K` to `V`, in the order in which the keys were first entered.
#[derive(Clone, Debug, PartialEq, Eq)]
pub struct Table<K, V> {
    pub entries: Vec<(K, V)>,
}

impl<K: Key, V> Table<K, V> {
    /// No key occurs twice.
    pub open spec fn wf(&self) -> bool {
        forall|i: int, j: int|
            0 <= i < j < self.entries@.len() ==> (#[trigger] self.entries@[i]).0.model() != (
            #[trigger] self.entries@[j]).0.model()
    }

    pub open spec fn has_at(&self, i: int, key: K::Model) -> bool {
        0 <= i < self.entries@.len() && self.entries@[i].0.model() == key
    }

    pub open spec fn index_of(&self, key: K::Model) -> int {
        choose|i: int| self.has_at(i, key)
    }

    pub open spec fn view(&self) -> Map<K::Model, V> {
        Map::new(
            |key: K::Model| exists|i: int| self.has_at(i, key),
            |key: K::Model| self.entries@[self.index_of(key)].1,
        )
    }

    /// The value under `key`, if there is one.
    pub open spec fn at(&self, key: K::Model) -> Option<V> {
        if self@.contains_key(key) {
            Some(self@[key])
        } else {
            None
        }
    }

    /// A position that holds `key` is the one its value is read from.
    pub proof fn lemma_at(&self, i: int)
        requires
            self.wf(),
            0 <= i < self.entries@.len(),
        ensures
            self@.contains_key(self.entries@[i].0.model()),
            self@[self.entries@[i].0.model()] == self.entries@[i].1,
            self.at(self.entries@[i].0.model()) == Some(self.entries@[i].1),
    {
        let key = self.entries@[i].0.model();
        assert(self.has_at(i, key));
        let j = self.index_of(key);
        assert(self.has_at(j, key));
        assert(i == j) by {
            if i < j {
                assert(self.entries@[i].0.model() != self.entries@[j].0.model());
            } else if j < i {
                assert(self.entries@[j].0.model() != self.entries@[i].0.model());
            }
        }
    }

    pub fn new() -> (table: Self)
        ensures
            table.wf(),
            table@ == Map::<K::Model, V>::empty(),
            table.entries@.len() == 0,
    {
        let table = Table { entries: Vec::new() };
        assert(table@ =~= Map::<K::Model, V>::empty());
        table
    }

    pub fn len(&self) -> (len: usize)
        ensures
            len == self.entries@.len(),
    {
        self.entries.len()
    }

    /// Where `key` stands, if it does.
    pub fn find(&self, key: &K) -> (found: Option<usize>)
        requires
            self.wf(),
        ensures
            match found {
                Some(i) => self.has_at(i as int, key.model()) && self@.contains_key(key.model())
                    && self@[key.model()] == self.entries@[i as int].1,
                None => !self@.contains_key(key.model()),
            },
    {
        let mut i: usize = 0;
        while i < self.entries.len()
            invariant
                self.wf(),
                i <= self.entries@.len(),
                forall|j: int| 0 <= j < i ==> (#[trigger] self.entries@[j]).0.model() != key.model(),
            decreases self.entries@.len() - i,
        {
            if self.entries[i].0.same(key) {
                proof {
                    self.lemma_at(i as int);
                }
                return Some(i);
            }
            i = i + 1;
        }
        None
    }

    pub fn get(&self, key: &K) -> (value: Option<&V>)
        requires
            self.wf(),
        ensures
            match value {
                Some(value) => self.at(key.model()) == Some(*value),
                None => self.at(key.model()) is None,
            },
    {
        match self.find(key) {
            Some(i) => Some(&self.entries[i].1),
            None => None,
        }
    }

    pub fn contains_key(&self, key: &K) -> (present: bool)
        requires
            self.wf(),
        ensures
            present == self@.contains_key(key.model()),
    {
        self.find(key).is_some()
    }

    /// Puts `value` under `key`: in the place of the value that was there, or
    /// last.
    pub fn insert(&mut self, key: K, value: V)
        requires
            old(self).wf(),
        ensures
            final(self).wf(),
            final(self)@ == old(self)@.insert(key.model(), value),
            match old(self).at(key.model()) {
                Some(_) => final(self).entries@.len() == old(self).entries@.len(),
                None => final(self).entries@ == old(self).entries@.push((key, value)),
            },
            forall|i: int|
                0 <= i < old(self).entries@.len() ==> (#[trigger] final(self).entries@[i]).0.model()
                    == old(self).entries@[i].0.model(),
    {
        match self.find(&key) {
            Some(i) => {
                let ghost before = *self;
                self.entries.set(i, (key, value));
                proof {
                    lemma_set_value(before, *self, i as int, value);
                }
            },
            None => {
                let ghost before = *self;
                let ghost entry = (key, value);
                assert forall|j: int| 0 <= j < before.entries@.len() implies (
                #[trigger] before.entries@[j]).0.model() != key.model() by {
                    if before.entries@[j].0.model() == key.model() {
                        assert(before.has_at(j, key.model()));
                    }
                }
                self.entries.push((key, value));
                assert(self.entries@ == before.entries@.push(entry));
                assert(self.wf());
                assert(self@ =~= before@.insert(key.model(), value)) by {
                    let last = before.entries@.len() as int;
                    self.lemma_at(last);
                    assert forall|k: K::Model| #[trigger]
                        self@.contains_key(k) == before@.insert(key.model(), value).contains_key(
                            k,
                        ) by {
                        if before@.contains_key(k) {
                            let j = before.index_of(k);
                            assert(before.has_at(j, k));
                            assert(self.has_at(j, k));
                        }
                        if self@.contains_key(k) {
                            let j = self.index_of(k);
                            assert(self.has_at(j, k));
                            if j < last {
                                assert(before.has_at(j, k));
                            }
                        }
                    }
                    assert forall|k: K::Model| self@.contains_key(k) implies #[trigger] self@[k]
                        == before@.insert(key.model(), value)[k] by {
                        let j = self.index_of(k);
                        assert(self.has_at(j, k));
                        if j < last {
                            before.lemma_at(j);
                        }
                    }
                }
            },
        }
    }

    /// Takes the entry under `key` out; the others keep their order.
    pub fn remove(&mut self, key: &K) -> (removed: Option<V>)
        requires
            old(self).wf(),
        ensures
            final(self).wf(),
            removed == old(self).at(key.model()),
            final(self)@ == old(self)@.remove(key.model()),
            removed is None ==> *final(self) == *old(self),
    {
        match self.find(key) {
            Some(i) => {
                let ghost before = *self;
                let (_, value) = self.entries.remove(i);
                proof {
                    lemma_removed(before, *self, i as int);
                }
                Some(value)
            },
            None => {
                assert(self@ =~= self@.remove(key.model()));
                None
            },
        }
    }
}

/// The entries whose key and value `p` holds of.
pub open spec fn entry_pred<K: Key, V>(p: spec_fn(K::Model, V) -> bool) -> spec_fn((K, V)) -> bool {
    |entry: (K, V)| p(entry.0.model(), entry.1)
}

/// The entries whose key and value `p` does not hold of.
pub open spec fn entry_not<K: Key, V>(p: spec_fn(K::Model, V) -> bool) -> spec_fn((K, V)) -> bool {
    |entry: (K, V)| !p(entry.0.model(), entry.1)
}

/// What is under `key` once only the entries that `p` holds of are left.
pub open spec fn kept_at<M, V>(value: Option<V>, key: M, p: spec_fn(M, V) -> bool) -> Option<V> {
    match value {
        Some(v) => if p(key, v) {
            Some(v)
        } else {
            None
        },
        None => None,
    }
}

impl<K: Key, V> Table<K, V> {
    /// Leaves the entries that `keep` answers `true` for, in their order, and
    /// hands out the others.
    pub(crate) fn retain<F: Fn(&K, &V) -> bool>(
        &mut self,
        keep: F,
        Ghost(p): Ghost<spec_fn(K::Model, V) -> bool>,
    ) -> (removed: Vec<(K, V)>)
        requires
            old(self).wf(),
            forall|k: &K, v: &V| #[trigger] call_requires(keep, (k, v)),
            forall|k: &K, v: &V, b: bool| #[trigger]
                call_ensures(keep, (k, v), b) ==> b == p(k.model(), *v),
        ensures
            final(self).wf(),
            final(self).entries@ == old(self).entries@.filter(entry_pred(p)),
            removed@ == old(self).entries@.filter(entry_not(p)),
            forall|k: K::Model| #[trigger]
                final(self).at(k) == kept_at(old(self).at(k), k, p),
    {
        let ghost all = self.entries@;
        let ghost before = *self;
        let mut removed: Vec<(K, V)> = Vec::new();
        let mut i: usize = 0;
        let ghost mut k: int = 0;
        assert(all.take(0).filter(entry_pred(p)) =~= Seq::<(K, V)>::empty());
        assert(all.take(0).filter(entry_not(p)) =~= Seq::<(K, V)>::empty());
        assert(all.take(0).filter(entry_pred(p)) + all.skip(0) =~= all);
        while i < self.entries.len()
            invariant
                0 <= k <= all.len(),
                i <= self.entries@.len(),
                i == all.take(k).filter(entry_pred(p)).len(),
                self.entries@ == all.take(k).filter(entry_pred(p)) + all.skip(k),
                removed@ == all.take(k).filter(entry_not(p)),
                forall|k: &K, v: &V| #[trigger] call_requires(keep, (k, v)),
                forall|k: &K, v: &V, b: bool| #[trigger]
                    call_ensures(keep, (k, v), b) ==> b == p(k.model(), *v),
            decreases self.entries@.len() - i,
        {
            proof {
                assert(k < all.len());
                assert(self.entries@[i as int] == all[k]);
                assert(all.take(k + 1) =~= all.take(k).push(all[k]));
                all.take(k).lemma_filter_push(all[k], entry_pred(p));
                all.take(k).lemma_filter_push(all[k], entry_not(p));
            }
            let stays = keep(&self.entries[i].0, &self.entries[i].1);
            if stays {
                i = i + 1;
                assert(self.entries@ =~= all.take(k + 1).filter(entry_pred(p)) + all.skip(k + 1));
            } else {
                let entry = self.entries.remove(i);
                removed.push(entry);
                assert(self.entries@ =~= all.take(k + 1).filter(entry_pred(p)) + all.skip(k + 1));
            }
            proof {
                k = k + 1;
            }
        }
        proof {
            assert(k == all.len());
            assert(all.take(k) =~= all);
            assert(self.entries@ =~= all.filter(entry_pred(p)));
            lemma_retained(before, *self, p);
        }
        removed
    }
}

impl<K: Key, V> Table<K, V> {
    /// Puts what `rewrite` gives for each value in its place.
    pub(crate) fn rewrite<F: Fn(&V) -> V>(&mut self, rewrite: F, Ghost(g): Ghost<spec_fn(V) -> V>)
        requires
            old(self).wf(),
            forall|v: &V| #[trigger] call_requires(rewrite, (v,)),
            forall|v: &V, w: V| #[trigger] call_ensures(rewrite, (v,), w) ==> w == g(*v),
        ensures
            final(self).wf(),
            final(self).entries@.len() == old(self).entries@.len(),
            forall|k: K::Model| #[trigger]
                final(self).at(k) == match old(self).at(k) {
                    Some(v) => Some(g(v)),
                    None => None,
                },
    {
        let ghost before = *self;
        let mut i: usize = 0;
        while i < self.entries.len()
            invariant
                i <= self.entries@.len(),
                self.entries@.len() == before.entries@.len(),
                forall|j: int|
                    0 <= j < i ==> (#[trigger] self.entries@[j]).0.model()
                        == before.entries@[j].0.model() && self.entries@[j].1 == g(
                        before.entries@[j].1,
                    ),
                forall|j: int|
                    i <= j < before.entries@.len() ==> #[trigger] self.entries@[j]
                        == before.entries@[j],
                forall|v: &V| #[trigger] call_requires(rewrite, (v,)),
                forall|v: &V, w: V| #[trigger] call_ensures(rewrite, (v,), w) ==> w == g(*v),
            decreases self.entries@.len() - i,
        {
            let key = self.entries[i].0.copied();
            let value = rewrite(&self.entries[i].1);
            self.entries.set(i, (key, value));
            i = i + 1;
        }
        proof {
            let after = *self;
            assert forall|a: int, b: int| 0 <= a < b < after.entries@.len() implies (
            #[trigger] after.entries@[a]).0.model() != (#[trigger] after.entries@[b]).0.model() by {
                assert(before.entries@[a].0.model() != before.entries@[b].0.model());
            }
            assert forall|k: K::Model| #[trigger]
                after.at(k) == match before.at(k) {
                    Some(v) => Some(g(v)),
                    None => None,
                } by {
                if before@.contains_key(k) {
                    let j = before.index_of(k);
                    assert(before.has_at(j, k));
                    before.lemma_at(j);
                    assert(after.entries@[j].0.model() == k);
                    after.lemma_at(j);
                } else if after@.contains_key(k) {
                    let j = after.index_of(k);
                    assert(after.has_at(j, k));
                    assert(before.has_at(j, k));
                }
            }
        }
    }
}

/// A list filtered keeps the order: each element of it comes from a place, and
/// later ones from later places.
pub proof fn lemma_filter_places<T>(list: Seq<T>, p: spec_fn(T) -> bool) -> (places: Seq<int>)
    ensures
        places.len() == list.filter(p).len(),
        forall|i: int|
            #![trigger places[i]]
            0 <= i < places.len() ==> 0 <= places[i] < list.len() && list.filter(p)[i]
                == list[places[i]] && p(list[places[i]]),
        forall|i: int, j: int|
            0 <= i < j < places.len() ==> (#[trigger] places[i]) < (#[trigger] places[j]),
        forall|x: int|
            0 <= x < list.len() && p(#[trigger] list[x]) ==> places.contains(x),
    decreases list.len(),
{
    if list.len() == 0 {
        Seq::empty()
    } else {
        let front = lemma_filter_places(list.drop_last(), p);
        let last = list.len() - 1;
        list.drop_last().lemma_filter_push(list.last(), p);
        assert(list =~= list.drop_last().push(list.last()));
        if p(list.last()) {
            let places = front.push(last);
            assert forall|x: int| 0 <= x < list.len() && p(#[trigger] list[x]) implies places.contains(
                x,
            ) by {
                if x < last {
                    assert(p(list.drop_last()[x]));
                    let i = choose|i: int| 0 <= i < front.len() && front[i] == x;
                    assert(places[i] == x);
                } else {
                    assert(places[front.len() as int] == x);
                }
            }
            places
        } else {
            assert forall|x: int| 0 <= x < list.len() && p(#[trigger] list[x]) implies front.contains(
                x,
            ) by {
                assert(p(list.drop_last()[x]));
            }
            front
        }
    }
}

proof fn lemma_retained<K: Key, V>(
    before: Table<K, V>,
    after: Table<K, V>,
    p: spec_fn(K::Model, V) -> bool,
)
    requires
        before.wf(),
        after.entries@ == before.entries@.filter(entry_pred(p)),
    ensures
        after.wf(),
        forall|k: K::Model| #[trigger] after.at(k) == kept_at(before.at(k), k, p),
{
    let places = lemma_filter_places(before.entries@, entry_pred(p));
    assert forall|a: int, b: int| 0 <= a < b < after.entries@.len() implies (
    #[trigger] after.entries@[a]).0.model() != (#[trigger] after.entries@[b]).0.model() by {
        assert(places[a] < places[b]);
        assert(before.entries@[places[a]].0.model() != before.entries@[places[b]].0.model());
    }
    assert forall|k: K::Model| #[trigger] after.at(k) == kept_at(before.at(k), k, p) by {
        if after@.contains_key(k) {
            let j = after.index_of(k);
            assert(after.has_at(j, k));
            after.lemma_at(j);
            assert(places[j] == places[j]);
            before.lemma_at(places[j]);
        } else if before@.contains_key(k) {
            let i = before.index_of(k);
            assert(before.has_at(i, k));
            before.lemma_at(i);
            if p(k, before.entries@[i].1) {
                assert(entry_pred(p)(before.entries@[i]));
                assert(places.contains(i));
                let j = choose|j: int| 0 <= j < places.len() && places[j] == i;
                after.lemma_at(j);
            }
        }
    }
}

/// Writing over the value at one position changes that key's value alone.
pub proof fn lemma_set_value<K: Key, V>(before: Table<K, V>, after: Table<K, V>, i: int, value: V)
    requires
        before.wf(),
        0 <= i < before.entries@.len(),
        after.entries@.len() == before.entries@.len(),
        after.entries@[i].0.model() == before.entries@[i].0.model(),
        after.entries@[i].1 == value,
        forall|j: int|
            0 <= j < before.entries@.len() && j != i ==> (#[trigger] after.entries@[j])
                == before.entries@[j],
    ensures
        after.wf(),
        after@ == before@.insert(before.entries@[i].0.model(), value),
{
    let key = before.entries@[i].0.model();
    assert forall|a: int, b: int| 0 <= a < b < after.entries@.len() implies (
    #[trigger] after.entries@[a]).0.model() != (#[trigger] after.entries@[b]).0.model() by {
        assert(before.entries@[a].0.model() != before.entries@[b].0.model());
    }
    before.lemma_at(i);
    after.lemma_at(i);
    assert(after@ =~= before@.insert(key, value)) by {
        assert forall|k: K::Model| #[trigger] after@.contains_key(k) == before@.insert(
            key,
            value,
        ).contains_key(k) by {
            if before@.contains_key(k) {
                let j = before.index_of(k);
                assert(before.has_at(j, k));
                assert(after.has_at(j, k));
            }
            if after@.contains_key(k) {
                let j = after.index_of(k);
                assert(after.has_at(j, k));
                assert(before.has_at(j, k));
            }
        }
        assert forall|k: K::Model| after@.contains_key(k) implies #[trigger] after@[k]
            == before@.insert(key, value)[k] by {
            let j = after.index_of(k);
            assert(after.has_at(j, k));
            before.lemma_at(j);
            after.lemma_at(j);
        }
    }
}

proof fn lemma_removed<K: Key, V>(before: Table<K, V>, after: Table<K, V>, i: int)
    requires
        before.wf(),
        0 <= i < before.entries@.len(),
        after.entries@ == before.entries@.remove(i),
    ensures
        after.wf(),
        after@ == before@.remove(before.entries@[i].0.model()),
{
    let key = before.entries@[i].0.model();
    let from = |j: int| if j < i { j } else { j + 1 };
    assert forall|j: int| 0 <= j < after.entries@.len() implies #[trigger] after.entries@[j]
        == before.entries@[from(j)] by {}
    assert forall|a: int, b: int| 0 <= a < b < after.entries@.len() implies (
    #[trigger] after.entries@[a]).0.model() != (#[trigger] after.entries@[b]).0.model() by {
        assert(before.entries@[from(a)].0.model() != before.entries@[from(b)].0.model());
    }
    assert(after@ =~= before@.remove(key)) by {
        assert forall|k: K::Model| #[trigger] after@.contains_key(k) == before@.remove(
            key,
        ).contains_key(k) by {
            if before@.contains_key(k) && k != key {
                let j = before.index_of(k);
                assert(before.has_at(j, k));
                let to = if j < i { j } else { j - 1 };
                assert(after.entries@[to] == before.entries@[from(to)]);
                assert(after.has_at(to, k));
            }
            if after@.contains_key(k) {
                let j = after.index_of(k);
                assert(after.has_at(j, k));
                assert(after.entries@[j] == before.entries@[from(j)]);
                assert(before.has_at(from(j), k));
                if k == key {
                    if from(j) < i {
                        assert(before.entries@[from(j)].0.model() != before.entries@[i].0.model());
                    } else {
                        assert(before.entries@[i].0.model() != before.entries@[from(j)].0.model());
                    }
                }
            }
        }
        assert forall|k: K::Model| after@.contains_key(k) implies #[trigger] after@[k]
            == before@.remove(key)[k] by {
            let j = after.index_of(k);
            assert(after.has_at(j, k));
            after.lemma_at(j);
            assert(after.entries@[j] == before.entries@[from(j)]);
            before.lemma_at(from(j));
        }
    }
}

/// What is kept of an entry is its value if that is to be kept, and nothing else.
pub proof fn what_is_kept_of_an_entry<M, V>(value: V, key: M, p: spec_fn(M, V) -> bool)
    ensures
        kept_at(None::<V>, key, p) is None,
        p(key, value) ==> kept_at(Some(value), key, p) == Some(value),
        !p(key, value) ==> kept_at(Some(value), key, p) is None,
{
}

} // verus!
