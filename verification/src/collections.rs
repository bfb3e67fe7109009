//! Small insertion-ordered collections: a set of keys and a table from keys to values.
//!
//! Both are vectors underneath. Their models are plain sequences, so contracts can speak of the
//! order in which entries are visited as well as of what is present.

use vstd::prelude::*;

verus! {

/// A value with a mathematical model.
pub trait Model {
    type M;

    spec fn model(&self) -> Self::M;
}

/// A value that can be compared and copied faithfully, and so can serve as a key.
pub trait Key: Model + Sized {
    fn same(&self, other: &Self) -> (result: bool)
        ensures
            result == (self.model() == other.model()),
    ;

    fn duplicate(&self) -> (result: Self)
        ensures
            result.model() == self.model(),
    ;
}

/// The models of the items of a sequence, in order.
pub open spec fn models<T: Model>(items: Seq<T>) -> Seq<T::M> {
    Seq::new(items.len(), |i: int| items[i].model())
}

/// `items` with `item` added at the end, unless it is there already.
pub open spec fn with<T>(items: Seq<T>, item: T) -> Seq<T> {
    if items.contains(item) {
        items
    } else {
        items.push(item)
    }
}

/// `items` with every occurrence of `item` taken out.
pub open spec fn without<T>(items: Seq<T>, item: T) -> Seq<T>
    decreases items.len(),
{
    if items.len() == 0 {
        items
    } else if items.last() == item {
        without(items.drop_last(), item)
    } else {
        without(items.drop_last(), item).push(items.last())
    }
}

/// Whether `entries` holds a value for `key`.
pub open spec fn holds<K, V>(entries: Seq<(K, V)>, key: K) -> bool {
    exists|i: int| 0 <= i < entries.len() && (#[trigger] entries[i]).0 == key
}

/// The value that `entries` holds for `key`.
pub open spec fn at<K, V>(entries: Seq<(K, V)>, key: K) -> V
    recommends
        holds(entries, key),
    decreases entries.len(),
{
    if entries.len() == 0 {
        arbitrary()
    } else if entries.last().0 == key {
        entries.last().1
    } else {
        at(entries.drop_last(), key)
    }
}

/// The value that `entries` holds for `key`, if any.
pub open spec fn lookup<K, V>(entries: Seq<(K, V)>, key: K) -> Option<V> {
    if holds(entries, key) {
        Some(at(entries, key))
    } else {
        None
    }
}

/// `entries` with the value for `key` exchanged.
pub open spec fn exchanged<K, V>(entries: Seq<(K, V)>, key: K, value: V) -> Seq<(K, V)>
    decreases entries.len(),
{
    if entries.len() == 0 {
        entries
    } else if entries.last().0 == key {
        entries.drop_last().push((key, value))
    } else {
        exchanged(entries.drop_last(), key, value).push(entries.last())
    }
}

/// `entries` with `value` for `key`: in place where the key is known, else at the end.
pub open spec fn put<K, V>(entries: Seq<(K, V)>, key: K, value: V) -> Seq<(K, V)> {
    if holds(entries, key) {
        exchanged(entries, key, value)
    } else {
        entries.push((key, value))
    }
}

/// `entries` without any value for `key`.
pub open spec fn dropped<K, V>(entries: Seq<(K, V)>, key: K) -> Seq<(K, V)>
    decreases entries.len(),
{
    if entries.len() == 0 {
        entries
    } else if entries.last().0 == key {
        dropped(entries.drop_last(), key)
    } else {
        dropped(entries.drop_last(), key).push(entries.last())
    }
}

/// Whether no key stands twice.
pub open spec fn unique<K, V>(entries: Seq<(K, V)>) -> bool {
    forall|i: int, j: int|
        0 <= i < j < entries.len() ==> (#[trigger] entries[i]).0 != (#[trigger] entries[j]).0
}

/// Whether no item stands twice.
pub open spec fn distinct<T>(items: Seq<T>) -> bool {
    forall|i: int, j: int|
        0 <= i < j < items.len() ==> #[trigger] items[i] != #[trigger] items[j]
}

/// The keys of `entries`, in order.
pub open spec fn keys<K, V>(entries: Seq<(K, V)>) -> Seq<K> {
    Seq::new(entries.len(), |i: int| entries[i].0)
}

proof fn lemma_at_index<K, V>(entries: Seq<(K, V)>, key: K, value: V, i: int)
    requires
        0 <= i < entries.len(),
        entries[i].0 == key,
        forall|j: int| i < j < entries.len() ==> (#[trigger] entries[j]).0 != key,
    ensures
        holds(entries, key),
        at(entries, key) == entries[i].1,
        exchanged(entries, key, value) == entries.update(i, (key, value)),
    decreases entries.len(),
{
    let last = entries.len() - 1;
    if i == last {
        assert(entries.drop_last().push((key, value)) =~= entries.update(i, (key, value)));
    } else {
        assert(entries[last].0 != key);
        lemma_at_index(entries.drop_last(), key, value, i);
        assert(entries.drop_last().update(i, (key, value)).push(entries.last())
            =~= entries.update(i, (key, value)));
    }
}

/// A set of keys, visited in the order in which they were added. No key stands in it twice.
pub struct KeySet<K: Key> {
    items: Vec<K>,
}

impl<K: Key> Model for KeySet<K> {
    type M = Seq<K::M>;

    closed spec fn model(&self) -> Seq<K::M> {
        models(self.items@)
    }
}

impl<K: Key> KeySet<K> {
    /// Whether no item stands twice.
    pub open spec fn wf(&self) -> bool {
        distinct(self.model())
    }

    pub fn new() -> (result: Self)
        ensures
            result.wf(),
            result.model() == Seq::<K::M>::empty(),
    {
        let result = KeySet { items: Vec::new() };
        assert(result.model() =~= Seq::<K::M>::empty());
        result
    }

    pub fn len(&self) -> (result: usize)
        ensures
            result == self.model().len(),
    {
        self.items.len()
    }

    /// The item visited at position `index`.
    pub fn get(&self, index: usize) -> (result: &K)
        requires
            index < self.model().len(),
        ensures
            result.model() == self.model()[index as int],
    {
        &self.items[index]
    }

    pub fn contains(&self, item: &K) -> (result: bool)
        ensures
            result == self.model().contains(item.model()),
    {
        let mut i: usize = 0;
        while i < self.items.len()
            invariant
                i <= self.items.len(),
                forall|j: int| 0 <= j < i ==> self.model()[j] != item.model(),
            decreases self.items.len() - i,
        {
            if self.items[i].same(item) {
                assert(self.model()[i as int] == item.model());
                return true;
            }
            i += 1;
        }
        false
    }

    /// Adds `item` unless it is there already.
    pub fn insert(&mut self, item: K)
        ensures
            final(self).model() == with(old(self).model(), item.model()),
            old(self).wf() ==> final(self).wf(),
    {
        proof {
            if self.wf() {
                lemma_distinct_with(self.model(), item.model());
            }
        }
        if !self.contains(&item) {
            self.items.push(item);
            assert(self.model() =~= old(self).model().push(item.model()));
        }
    }

    /// Takes `item` out.
    pub fn remove(&mut self, item: &K)
        ensures
            final(self).model() == without(old(self).model(), item.model()),
            old(self).wf() ==> final(self).wf(),
    {
        proof {
            if self.wf() {
                lemma_distinct_without(self.model(), item.model());
            }
        }
        let ghost before = self.model();
        let ghost mut done: int = 0;
        let mut i: usize = 0;
        assert(before.take(0) =~= Seq::<K::M>::empty());
        assert(self.model() =~= without(before.take(0), item.model()) + before.skip(0));
        while i < self.items.len()
            invariant
                0 <= done <= before.len(),
                i <= self.items.len(),
                self.model() == without(before.take(done), item.model()) + before.skip(done),
                without(before.take(done), item.model()).len() == i,
            decreases self.items.len() - i,
        {
            proof {
                assert(self.model()[i as int] == before.skip(done)[0]);
                assert(before.take(done + 1).drop_last() =~= before.take(done));
                assert(before.take(done + 1).last() == before[done]);
            }
            let ghost current = self.model();
            if self.items[i].same(item) {
                self.items.remove(i);
                assert(self.model() =~= current.remove(i as int));
                assert(self.model() =~= without(before.take(done + 1), item.model()) + before.skip(
                    done + 1,
                ));
            } else {
                assert(self.model() =~= without(before.take(done + 1), item.model()) + before.skip(
                    done + 1,
                ));
                i += 1;
            }
            proof {
                done = done + 1;
            }
        }
        assert(before.skip(done).len() == 0);
        assert(before.take(done) =~= before);
        assert(self.model() =~= without(before, item.model()));
    }
}

impl<K: Key> KeySet<K> {
    /// The items, in order.
    pub fn to_vec(&self) -> (result: Vec<K>)
        ensures
            models(result@) == self.model(),
            self.wf() ==> distinct(models(result@)),
    {
        let mut result: Vec<K> = Vec::new();
        let mut i: usize = 0;
        while i < self.items.len()
            invariant
                i <= self.items.len(),
                models(result@) == self.model().take(i as int),
            decreases self.items.len() - i,
        {
            let ghost before = models(result@);
            result.push(self.items[i].duplicate());
            assert(models(result@) =~= before.push(self.model()[i as int]));
            i += 1;
            assert(models(result@) =~= self.model().take(i as int));
        }
        assert(self.model().take(i as int) =~= self.model());
        result
    }

    /// A set with the same items in the same order.
    pub fn duplicate(&self) -> (result: Self)
        ensures
            result.model() == self.model(),
            self.wf() ==> result.wf(),
    {
        KeySet { items: self.to_vec() }
    }
}

/// A table from keys to values, visited in the order in which the keys were first put in. No key
/// stands in it twice.
pub struct Table<K: Key, V: Model> {
    entries: Vec<(K, V)>,
}

impl<K: Key, V: Model> Model for Table<K, V> {
    type M = Seq<(K::M, V::M)>;

    closed spec fn model(&self) -> Seq<(K::M, V::M)> {
        Seq::new(self.entries@.len(), |i: int| (self.entries[i].0.model(), self.entries[i].1.model()))
    }
}

impl<K: Key, V: Model> Table<K, V> {
    /// Whether no key stands twice.
    pub open spec fn wf(&self) -> bool {
        unique(self.model())
    }

    pub fn new() -> (result: Self)
        ensures
            result.wf(),
            result.model() == Seq::<(K::M, V::M)>::empty(),
    {
        let result = Table { entries: Vec::new() };
        assert(result.model() =~= Seq::<(K::M, V::M)>::empty());
        result
    }

    pub fn len(&self) -> (result: usize)
        ensures
            result == self.model().len(),
    {
        self.entries.len()
    }

    /// The key visited at position `index`.
    pub fn key(&self, index: usize) -> (result: &K)
        requires
            index < self.model().len(),
        ensures
            result.model() == self.model()[index as int].0,
    {
        &self.entries[index].0
    }

    /// The value visited at position `index`.
    pub fn value(&self, index: usize) -> (result: &V)
        requires
            index < self.model().len(),
        ensures
            result.model() == self.model()[index as int].1,
    {
        &self.entries[index].1
    }

    fn find(&self, key: &K) -> (result: Option<usize>)
        ensures
            match result {
                Some(i) => {
                    &&& i < self.model().len()
                    &&& self.model()[i as int].0 == key.model()
                    &&& forall|j: int|
                        i < j < self.model().len() ==> (#[trigger] self.model()[j]).0 != key.model()
                },
                None => !holds(self.model(), key.model()),
            },
    {
        let mut i: usize = self.entries.len();
        while i > 0
            invariant
                i <= self.entries.len(),
                forall|j: int|
                    i <= j < self.model().len() ==> (#[trigger] self.model()[j]).0 != key.model(),
            decreases i,
        {
            i -= 1;
            if self.entries[i].0.same(key) {
                return Some(i);
            }
            assert(self.model()[i as int].0 != key.model());
        }
        None
    }

    pub fn contains_key(&self, key: &K) -> (result: bool)
        ensures
            result == holds(self.model(), key.model()),
    {
        match self.find(key) {
            Some(i) => {
                assert(self.model()[i as int].0 == key.model());
                true
            },
            None => false,
        }
    }

    pub fn get(&self, key: &K) -> (result: Option<&V>)
        ensures
            match result {
                Some(value) => lookup(self.model(), key.model()) == Some(value.model()),
                None => lookup(self.model(), key.model()) is None,
            },
    {
        match self.find(key) {
            Some(i) => {
                proof {
                    lemma_at_index(self.model(), key.model(), self.model()[i as int].1, i as int);
                }
                Some(&self.entries[i].1)
            },
            None => None,
        }
    }

    /// The value for `key`, to be changed in place.
    pub fn get_mut(&mut self, key: &K) -> (result: Option<&mut V>)
        ensures
            match result {
                Some(value) => {
                    &&& lookup(old(self).model(), key.model()) == Some(value.model())
                    &&& final(self).model() == put(
                        old(self).model(),
                        key.model(),
                        final(value).model(),
                    )
                    &&& old(self).wf() ==> final(self).wf()
                },
                None => {
                    &&& lookup(old(self).model(), key.model()) is None
                    &&& final(self).model() == old(self).model()
                },
            },
    {
        match self.find(key) {
            Some(i) => {
                let ghost before = self.model();
                let value = &mut self.entries[i].1;
                proof {
                    lemma_at_index(before, key.model(), final(value).model(), i as int);
                    if unique(before) {
                        lemma_unique_put(before, key.model(), final(value).model());
                    }
                    assert(after_borrow(self).model() =~= before.update(
                        i as int,
                        (key.model(), final(value).model()),
                    ));
                }
                Some(value)
            },
            None => None,
        }
    }

    /// Puts `value` in for `key`: in place where the key is known, else at the end.
    pub fn insert(&mut self, key: K, value: V)
        ensures
            final(self).model() == put(old(self).model(), key.model(), value.model()),
            old(self).wf() ==> final(self).wf(),
    {
        let ghost before = self.model();
        proof {
            if unique(before) {
                lemma_unique_put(before, key.model(), value.model());
            }
        }
        match self.find(&key) {
            Some(i) => {
                self.entries[i] = (key, value);
                proof {
                    lemma_at_index(before, key.model(), value.model(), i as int);
                    assert(self.model() =~= before.update(
                        i as int,
                        (key.model(), value.model()),
                    ));
                }
            },
            None => {
                self.entries.push((key, value));
                assert(self.model() =~= before.push((key.model(), value.model())));
            },
        }
    }

    /// Takes out what is there for `key`.
    pub fn remove(&mut self, key: &K)
        ensures
            final(self).model() == dropped(old(self).model(), key.model()),
            old(self).wf() ==> final(self).wf(),
    {
        let ghost before = self.model();
        proof {
            if unique(before) {
                lemma_unique_dropped(before, key.model());
            }
        }
        let ghost mut done: int = 0;
        let mut i: usize = 0;
        assert(before.take(0) =~= Seq::<(K::M, V::M)>::empty());
        assert(self.model() =~= dropped(before.take(0), key.model()) + before.skip(0));
        while i < self.entries.len()
            invariant
                0 <= done <= before.len(),
                i <= self.entries.len(),
                self.model() == dropped(before.take(done), key.model()) + before.skip(done),
                dropped(before.take(done), key.model()).len() == i,
            decreases self.entries.len() - i,
        {
            proof {
                assert(self.model()[i as int] == before.skip(done)[0]);
                assert(before.take(done + 1).drop_last() =~= before.take(done));
                assert(before.take(done + 1).last() == before[done]);
            }
            let ghost current = self.model();
            if self.entries[i].0.same(key) {
                self.entries.remove(i);
                assert(self.model() =~= current.remove(i as int));
                assert(self.model() =~= dropped(before.take(done + 1), key.model()) + before.skip(
                    done + 1,
                ));
            } else {
                assert(self.model() =~= dropped(before.take(done + 1), key.model()) + before.skip(
                    done + 1,
                ));
                i += 1;
            }
            proof {
                done = done + 1;
            }
        }
        assert(before.skip(done).len() == 0);
        assert(before.take(done) =~= before);
        assert(self.model() =~= dropped(before, key.model()));
    }

    /// Takes out what is there for `key` and hands it back.
    pub fn take(&mut self, key: &K) -> (result: Option<V>)
        ensures
            match result {
                Some(value) => lookup(old(self).model(), key.model()) == Some(value.model()),
                None => lookup(old(self).model(), key.model()) is None,
            },
            final(self).model() == dropped(old(self).model(), key.model()),
            old(self).wf() ==> final(self).wf(),
    {
        let ghost before = self.model();
        proof {
            if unique(before) {
                lemma_unique_dropped(before, key.model());
            }
        }
        match self.find(key) {
            Some(i) => {
                let (_, value) = self.entries.remove(i);
                proof {
                    lemma_at_index(before, key.model(), before[i as int].1, i as int);
                    assert(self.model() =~= before.remove(i as int));
                    lemma_dropped_remove(before, key.model(), i as int);
                }
                self.remove(key);
                Some(value)
            },
            None => {
                proof {
                    lemma_dropped_absent(before, key.model());
                }
                None
            },
        }
    }

    /// Takes out the entry at position `index`.
    pub fn remove_at(&mut self, index: usize)
        requires
            index < old(self).model().len(),
        ensures
            final(self).model() == old(self).model().remove(index as int),
            old(self).wf() ==> final(self).wf(),
    {
        self.entries.remove(index);
        assert(self.model() =~= old(self).model().remove(index as int));
    }

    /// The value at position `index`, to be changed in place.
    pub fn value_mut(&mut self, index: usize) -> (result: &mut V)
        requires
            index < old(self).model().len(),
        ensures
            result.model() == old(self).model()[index as int].1,
            final(self).model() == old(self).model().update(
                index as int,
                (old(self).model()[index as int].0, final(result).model()),
            ),
            old(self).wf() ==> final(self).wf(),
    {
        let ghost before = self.model();
        let value = &mut self.entries[index].1;
        assert(after_borrow(self).model() =~= before.update(
            index as int,
            (before[index as int].0, final(value).model()),
        ));
        value
    }
}

impl<K: Key, V: Key> Table<K, V> {
    /// A table with the same entries in the same order.
    pub fn duplicate(&self) -> (result: Self)
        ensures
            result.model() == self.model(),
            self.wf() ==> result.wf(),
    {
        let mut entries: Vec<(K, V)> = Vec::new();
        let mut i: usize = 0;
        while i < self.entries.len()
            invariant
                i <= self.entries.len(),
                entries@.len() == i,
                forall|j: int|
                    0 <= j < i ==> ((#[trigger] entries@[j]).0.model(), entries@[j].1.model())
                        == self.model()[j],
            decreases self.entries.len() - i,
        {
            entries.push((self.entries[i].0.duplicate(), self.entries[i].1.duplicate()));
            i += 1;
        }
        let result = Table { entries };
        assert(result.model() =~= self.model());
        result
    }
}

proof fn lemma_dropped_remove<K, V>(entries: Seq<(K, V)>, key: K, i: int)
    requires
        0 <= i < entries.len(),
        entries[i].0 == key,
    ensures
        dropped(entries.remove(i), key) == dropped(entries, key),
    decreases entries.len(),
{
    if i == entries.len() - 1 {
        assert(entries.remove(i) =~= entries.drop_last());
    } else {
        lemma_dropped_remove(entries.drop_last(), key, i);
        assert(entries.remove(i).drop_last() =~= entries.drop_last().remove(i));
        assert(entries.remove(i).last() == entries.last());
    }
}

/// Dropping a key that is not there changes nothing.
pub proof fn lemma_dropped_absent<K, V>(entries: Seq<(K, V)>, key: K)
    requires
        !holds(entries, key),
    ensures
        dropped(entries, key) == entries,
    decreases entries.len(),
{
    if entries.len() > 0 {
        assert(entries.last() == entries[entries.len() - 1]);
        assert(!holds(entries.drop_last(), key)) by {
            if holds(entries.drop_last(), key) {
                let i = choose|i: int|
                    0 <= i < entries.drop_last().len() && (
                    #[trigger] entries.drop_last()[i]).0 == key;
                assert(entries[i].0 == key);
            }
        }
        lemma_dropped_absent(entries.drop_last(), key);
        assert(entries.drop_last().push(entries.last()) =~= entries);
    }
}

/// What is put in for a key is found for that key, and no other key is touched.
pub broadcast proof fn lemma_put<K, V>(entries: Seq<(K, V)>, key: K, value: V, other: K)
    ensures
        #![trigger holds(put(entries, key, value), other)]
        #![trigger at(put(entries, key, value), other)]
        holds(put(entries, key, value), other) == (other == key || holds(entries, other)),
        other == key ==> at(put(entries, key, value), other) == value,
        other != key && holds(entries, other) ==> at(put(entries, key, value), other) == at(
            entries,
            other,
        ),
{
    if holds(entries, key) {
        lemma_exchanged(entries, key, value, other);
    } else {
        let after = entries.push((key, value));
        assert(after.drop_last() =~= entries);
        if other == key {
            assert(after[entries.len() as int].0 == key);
        }
        if holds(entries, other) {
            let i = choose|i: int| 0 <= i < entries.len() && (#[trigger] entries[i]).0 == other;
            assert(after[i].0 == other);
        }
        if holds(after, other) && other != key {
            let i = choose|i: int| 0 <= i < after.len() && (#[trigger] after[i]).0 == other;
            assert(entries[i].0 == other);
        }
    }
}

proof fn lemma_holds_last<K, V>(entries: Seq<(K, V)>, key: K)
    requires
        entries.len() > 0,
    ensures
        holds(entries, key) == (entries.last().0 == key || holds(entries.drop_last(), key)),
{
    if holds(entries, key) {
        let i = choose|i: int| 0 <= i < entries.len() && (#[trigger] entries[i]).0 == key;
        if i < entries.len() - 1 {
            assert(entries.drop_last()[i].0 == key);
        }
    }
    if entries.last().0 == key {
        assert(entries[entries.len() - 1].0 == key);
    }
    if holds(entries.drop_last(), key) {
        let i = choose|i: int|
            0 <= i < entries.drop_last().len() && (#[trigger] entries.drop_last()[i]).0 == key;
        assert(entries[i].0 == key);
    }
}

proof fn lemma_exchanged<K, V>(entries: Seq<(K, V)>, key: K, value: V, other: K)
    ensures
        exchanged(entries, key, value).len() == entries.len(),
        holds(exchanged(entries, key, value), other) == holds(entries, other),
        other == key && holds(entries, key) ==> at(exchanged(entries, key, value), other) == value,
        other != key && holds(entries, other) ==> at(exchanged(entries, key, value), other) == at(
            entries,
            other,
        ),
    decreases entries.len(),
{
    if entries.len() > 0 {
        let after = exchanged(entries, key, value);
        lemma_exchanged(entries.drop_last(), key, value, other);
        lemma_holds_last(entries, other);
        lemma_holds_last(after, other);
        if entries.last().0 == key {
            assert(after.drop_last() =~= entries.drop_last());
        } else {
            assert(after.drop_last() =~= exchanged(entries.drop_last(), key, value));
        }
    }
}

/// What is dropped is no longer found, and no other key is touched.
pub broadcast proof fn lemma_dropped<K, V>(entries: Seq<(K, V)>, key: K, other: K)
    ensures
        #![trigger holds(dropped(entries, key), other)]
        #![trigger at(dropped(entries, key), other)]
        holds(dropped(entries, key), other) == (other != key && holds(entries, other)),
        other != key && holds(entries, other) ==> at(dropped(entries, key), other) == at(
            entries,
            other,
        ),
    decreases entries.len(),
{
    let after = dropped(entries, key);
    if entries.len() > 0 {
        lemma_dropped(entries.drop_last(), key, other);
        lemma_holds_last(entries, other);
        if entries.last().0 != key {
            lemma_holds_last(after, other);
            assert(after.drop_last() =~= dropped(entries.drop_last(), key));
        }
    }
}

/// What is taken out of a set is no longer there, and nothing else is touched.
pub broadcast proof fn lemma_without<T>(items: Seq<T>, item: T, other: T)
    ensures
        #[trigger] without(items, item).contains(other) == (other != item && items.contains(other)),
    decreases items.len(),
{
    if items.len() > 0 {
        lemma_without(items.drop_last(), item, other);
        let rest = items.drop_last();
        assert(items.contains(other) == (items.last() == other || rest.contains(other))) by {
            if items.contains(other) {
                let i = choose|i: int| 0 <= i < items.len() && items[i] == other;
                if i < rest.len() {
                    assert(rest[i] == other);
                }
            }
            if rest.contains(other) {
                let i = choose|i: int| 0 <= i < rest.len() && rest[i] == other;
                assert(items[i] == other);
            }
            if items.last() == other {
                assert(items[items.len() - 1] == other);
            }
        }
        if items.last() != item {
            let kept = without(rest, item);
            let after = kept.push(items.last());
            if after.contains(other) {
                let i = choose|i: int| 0 <= i < after.len() && after[i] == other;
                if i < kept.len() {
                    assert(kept[i] == other);
                }
            }
            if kept.contains(other) {
                let i = choose|i: int| 0 <= i < kept.len() && kept[i] == other;
                assert(after[i] == other);
            }
            assert(after[kept.len() as int] == items.last());
        }
    }
}

/// What is added to a set is there, and nothing else is touched.
pub broadcast proof fn lemma_with<T>(items: Seq<T>, item: T, other: T)
    ensures
        #[trigger] with(items, item).contains(other) == (other == item || items.contains(other)),
{
    if !items.contains(item) {
        let after = items.push(item);
        assert(after[items.len() as int] == item);
        if after.contains(other) && other != item {
            let i = choose|i: int| 0 <= i < after.len() && after[i] == other;
            assert(items[i] == other);
        }
        if items.contains(other) {
            let i = choose|i: int| 0 <= i < items.len() && items[i] == other;
            assert(after[i] == other);
        }
    }
}

proof fn lemma_dropped_exchanged<K, V>(entries: Seq<(K, V)>, key: K, value: V)
    ensures
        dropped(exchanged(entries, key, value), key) == dropped(entries, key),
    decreases entries.len(),
{
    if entries.len() > 0 {
        let after = exchanged(entries, key, value);
        lemma_dropped_exchanged(entries.drop_last(), key, value);
        if entries.last().0 == key {
            assert(after.drop_last() =~= entries.drop_last());
        } else {
            assert(after.drop_last() =~= exchanged(entries.drop_last(), key, value));
        }
    }
}

/// What was put in for a key does not matter once the key is dropped.
pub broadcast proof fn lemma_dropped_put<K, V>(entries: Seq<(K, V)>, key: K, value: V)
    ensures
        #[trigger] dropped(put(entries, key, value), key) == dropped(entries, key),
{
    if holds(entries, key) {
        lemma_dropped_exchanged(entries, key, value);
    } else {
        assert(entries.push((key, value)).drop_last() =~= entries);
    }
}

proof fn lemma_exchanged_twice<K, V>(entries: Seq<(K, V)>, key: K, first: V, second: V)
    ensures
        exchanged(exchanged(entries, key, first), key, second) == exchanged(entries, key, second),
    decreases entries.len(),
{
    if entries.len() > 0 {
        let after = exchanged(entries, key, first);
        lemma_exchanged_twice(entries.drop_last(), key, first, second);
        if entries.last().0 == key {
            assert(after.drop_last() =~= entries.drop_last());
        } else {
            assert(after.drop_last() =~= exchanged(entries.drop_last(), key, first));
        }
    }
}

/// What is put in last for a key counts.
pub broadcast proof fn lemma_put_twice<K, V>(entries: Seq<(K, V)>, key: K, first: V, second: V)
    ensures
        #[trigger] put(put(entries, key, first), key, second) == put(entries, key, second),
{
    lemma_put(entries, key, first, key);
    if holds(entries, key) {
        lemma_exchanged_twice(entries, key, first, second);
    } else {
        let after = entries.push((key, first));
        assert(after.drop_last() =~= entries);
        assert(exchanged(after, key, second) =~= entries.push((key, second)));
    }
}

/// Putting in what is there already changes nothing.
pub proof fn lemma_put_same<K, V>(entries: Seq<(K, V)>, key: K)
    requires
        holds(entries, key),
    ensures
        put(entries, key, at(entries, key)) == entries,
{
    lemma_exchanged_same(entries, key);
}

proof fn lemma_exchanged_same<K, V>(entries: Seq<(K, V)>, key: K)
    ensures
        exchanged(entries, key, at(entries, key)) == entries,
    decreases entries.len(),
{
    if entries.len() > 0 {
        if entries.last().0 == key {
            assert(entries.drop_last().push((key, entries.last().1)) =~= entries);
        } else {
            lemma_exchanged_same(entries.drop_last(), key);
            assert(entries.drop_last().push(entries.last()) =~= entries);
        }
    }
}

proof fn lemma_holds_index<K, V>(entries: Seq<(K, V)>, i: int)
    requires
        0 <= i < entries.len(),
    ensures
        holds(entries, entries[i].0),
{
}

proof fn lemma_exchanged_keys<K, V>(entries: Seq<(K, V)>, key: K, value: V)
    ensures
        exchanged(entries, key, value).len() == entries.len(),
        forall|i: int|
            0 <= i < entries.len() ==> (#[trigger] exchanged(entries, key, value)[i]).0
                == entries[i].0,
    decreases entries.len(),
{
    if entries.len() > 0 && entries.last().0 != key {
        lemma_exchanged_keys(entries.drop_last(), key, value);
    }
}

/// Putting a value in keeps keys unique.
pub proof fn lemma_unique_put<K, V>(entries: Seq<(K, V)>, key: K, value: V)
    requires
        unique(entries),
    ensures
        unique(put(entries, key, value)),
{
    if holds(entries, key) {
        lemma_exchanged_keys(entries, key, value);
    } else {
        let after = entries.push((key, value));
        assert forall|i: int, j: int| 0 <= i < j < after.len() implies (#[trigger] after[i]).0 != (
        #[trigger] after[j]).0 by {
            lemma_holds_index(entries, i);
        }
    }
}

proof fn lemma_dropped_from<K, V>(entries: Seq<(K, V)>, key: K, i: int)
    requires
        0 <= i < dropped(entries, key).len(),
    ensures
        exists|j: int| 0 <= j < entries.len() && #[trigger] entries[j] == dropped(entries, key)[i],
    decreases entries.len(),
{
    if entries.len() > 0 {
        let rest = dropped(entries.drop_last(), key);
        if entries.last().0 != key && i == rest.len() {
            assert(entries[entries.len() - 1] == dropped(entries, key)[i]);
        } else {
            lemma_dropped_from(entries.drop_last(), key, i);
            let j = choose|j: int|
                0 <= j < entries.drop_last().len() && #[trigger] entries.drop_last()[j] == rest[i];
            assert(entries[j] == dropped(entries, key)[i]);
        }
    }
}

/// Dropping a key keeps keys unique.
pub proof fn lemma_unique_dropped<K, V>(entries: Seq<(K, V)>, key: K)
    requires
        unique(entries),
    ensures
        unique(dropped(entries, key)),
    decreases entries.len(),
{
    if entries.len() > 0 {
        let rest = entries.drop_last();
        assert(unique(rest)) by {
            assert forall|i: int, j: int| 0 <= i < j < rest.len() implies (#[trigger] rest[i]).0 != (
            #[trigger] rest[j]).0 by {
                assert(entries[i].0 != entries[j].0);
            }
        }
        lemma_unique_dropped(rest, key);
        if entries.last().0 != key {
            let after = dropped(entries, key);
            assert forall|i: int, j: int| 0 <= i < j < after.len() implies (#[trigger] after[i]).0
                != (#[trigger] after[j]).0 by {
                if j == after.len() - 1 {
                    lemma_dropped_from(rest, key, i);
                    let k = choose|k: int|
                        0 <= k < rest.len() && #[trigger] rest[k] == dropped(rest, key)[i];
                    assert(entries[k].0 != entries[entries.len() - 1].0);
                }
            }
        }
    }
}

/// Adding an item keeps items distinct.
pub proof fn lemma_distinct_with<T>(items: Seq<T>, item: T)
    requires
        distinct(items),
    ensures
        distinct(with(items, item)),
{
    if !items.contains(item) {
        let after = items.push(item);
        assert forall|i: int, j: int| 0 <= i < j < after.len() implies #[trigger] after[i]
            != #[trigger] after[j] by {
            if j == items.len() {
                assert(items.contains(items[i]));
            }
        }
    }
}

/// Taking an item out keeps items distinct.
pub proof fn lemma_distinct_without<T>(items: Seq<T>, item: T)
    requires
        distinct(items),
    ensures
        distinct(without(items, item)),
    decreases items.len(),
{
    if items.len() > 0 {
        let rest = items.drop_last();
        assert(distinct(rest)) by {
            assert forall|i: int, j: int| 0 <= i < j < rest.len() implies #[trigger] rest[i]
                != #[trigger] rest[j] by {
                assert(items[i] != items[j]);
            }
        }
        lemma_distinct_without(rest, item);
        if items.last() != item {
            let less = without(rest, item);
            let after = without(items, item);
            assert forall|i: int, j: int| 0 <= i < j < after.len() implies #[trigger] after[i]
                != #[trigger] after[j] by {
                if j == less.len() {
                    assert(less.contains(less[i]));
                    lemma_without(rest, item, less[i]);
                    assert(rest.contains(less[i]));
                    let k = choose|k: int| 0 <= k < rest.len() && rest[k] == less[i];
                    assert(items[k] != items[items.len() - 1]);
                }
            }
        }
    }
}

pub broadcast group group_collections {
    lemma_put_twice,
    lemma_dropped_put,
    lemma_put,
    lemma_dropped,
    lemma_with,
    lemma_without,
}

/// `item` put into the ordered sequence `items` behind everything that does not come after it.
pub open spec fn placed<T>(items: Seq<T>, item: T, before: spec_fn(T, T) -> bool) -> Seq<T>
    decreases items.len(),
{
    if items.len() == 0 || !before(item, items.last()) {
        items.push(item)
    } else {
        placed(items.drop_last(), item, before).push(items.last())
    }
}

/// `items` in order, with what ranks alike left in the order in which it came.
pub open spec fn sorted<T>(items: Seq<T>, before: spec_fn(T, T) -> bool) -> Seq<T>
    decreases items.len(),
{
    if items.len() == 0 {
        items
    } else {
        placed(sorted(items.drop_last(), before), items.last(), before)
    }
}

/// A value that is ranked against others of its kind.
pub trait Ranked: Model + Sized {
    spec fn ranks_before(left: Self::M, right: Self::M) -> bool;

    fn is_before(&self, other: &Self) -> (result: bool)
        ensures
            result == Self::ranks_before(self.model(), other.model()),
    ;
}

/// The order of a ranked type, as a function.
pub open spec fn ranking<T: Ranked>() -> spec_fn(T::M, T::M) -> bool {
    |left: T::M, right: T::M| T::ranks_before(left, right)
}

/// Sorts by rank; what ranks alike keeps its order.
pub fn sort<T: Ranked>(items: Vec<T>) -> (result: Vec<T>)
    ensures
        models(result@) == sorted(models(items@), ranking::<T>()),
{
    let ghost all = models(items@);
    let mut rest = items;
    let mut reversed: Vec<T> = Vec::new();
    // Taking items off the end turns the order round once; the loop below turns it back.
    while rest.len() > 0
        invariant
            rest@.len() + reversed@.len() == all.len(),
            models(rest@) == all.take(rest@.len() as int),
            forall|j: int|
                0 <= j < reversed@.len() ==> (#[trigger] reversed@[j]).model() == all[all.len() - 1
                    - j],
        decreases rest@.len(),
    {
        let ghost before = rest@;
        match rest.pop() {
            Some(item) => {
                proof {
                    assert(models(before)[before.len() - 1] == item.model());
                    assert(models(rest@) =~= all.take(rest@.len() as int));
                }
                reversed.push(item);
            },
            None => {},
        }
    }
    let mut result: Vec<T> = Vec::new();
    assert(models(result@) =~= sorted(all.take(0), ranking::<T>()));
    while reversed.len() > 0
        invariant
            result@.len() + reversed@.len() == all.len(),
            models(result@) == sorted(all.take(result@.len() as int), ranking::<T>()),
            forall|j: int|
                0 <= j < reversed@.len() ==> (#[trigger] reversed@[j]).model() == all[all.len() - 1
                    - j],
        decreases reversed@.len(),
    {
        let ghost done = result@.len() as int;
        let ghost current = models(result@);
        match reversed.pop() {
            Some(item) => {
                assert(item.model() == all[done]);
                let mut i: usize = result.len();
                assert(current.take(i as int) =~= current);
                assert(placed(current, item.model(), ranking::<T>()) + current.skip(i as int)
                    =~= placed(current, item.model(), ranking::<T>()));
                while i > 0 && item.is_before(&result[i - 1])
                    invariant
                        i <= result@.len(),
                        current == models(result@),
                        placed(current, item.model(), ranking::<T>()) == placed(
                            current.take(i as int),
                            item.model(),
                            ranking::<T>(),
                        ) + current.skip(i as int),
                    decreases i,
                {
                    proof {
                        let front = current.take(i as int);
                        assert(front.drop_last() =~= current.take(i - 1));
                        assert(front.last() == result@[i - 1].model());
                        assert(placed(front.drop_last(), item.model(), ranking::<T>()).push(
                            front.last(),
                        ) + current.skip(i as int) =~= placed(
                            current.take(i - 1),
                            item.model(),
                            ranking::<T>(),
                        ) + current.skip(i - 1));
                    }
                    i -= 1;
                }
                let ghost at = i as int;
                let ghost ranked = item.model();
                result.insert(i, item);
                proof {
                    let front = current.take(at);
                    if at > 0 {
                        assert(front.last() == current[at - 1]);
                    }
                    assert(placed(front, ranked, ranking::<T>()) == front.push(ranked));
                    assert(models(result@) =~= front.push(ranked) + current.skip(at));
                    assert(all.take(done + 1).drop_last() =~= all.take(done));
                    assert(all.take(done + 1).last() == ranked);
                }
            },
            None => {},
        }
    }
    assert(all.take(result@.len() as int) =~= all);
    result
}

/// The models of items one after another.
pub broadcast proof fn lemma_models_push<T: Model>(items: Seq<T>, item: T)
    ensures
        #[trigger] models(items.push(item)) == models(items).push(item.model()),
{
    assert(models(items.push(item)) =~= models(items).push(item.model()));
}

pub broadcast proof fn lemma_models_add<T: Model>(left: Seq<T>, right: Seq<T>)
    ensures
        #[trigger] models(left + right) == models(left) + models(right),
{
    assert(models(left + right) =~= models(left) + models(right));
}

pub broadcast proof fn lemma_models_empty<T: Model>(items: Seq<T>)
    requires
        items.len() == 0,
    ensures
        #[trigger] models(items) == Seq::<T::M>::empty(),
{
    assert(models(items) =~= Seq::<T::M>::empty());
}

/// How a prefix of a sequence grows by one item.
pub broadcast proof fn lemma_take_last<T>(items: Seq<T>, count: int)
    requires
        0 < count <= items.len(),
    ensures
        #![trigger items.take(count).drop_last()]
        #![trigger items.take(count).last()]
        items.take(count).drop_last() == items.take(count - 1),
        items.take(count).last() == items[count - 1],
{
    assert(items.take(count).drop_last() =~= items.take(count - 1));
}

/// The longest prefix is the whole.
pub broadcast proof fn lemma_take_all<T>(items: Seq<T>, count: int)
    requires
        count == items.len(),
    ensures
        #[trigger] items.take(count) == items,
{
    assert(items.take(count) =~= items);
}

pub broadcast proof fn lemma_push_last<T>(items: Seq<T>, item: T)
    ensures
        #![trigger items.push(item).drop_last()]
        items.push(item).drop_last() == items,
        items.push(item).last() == item,
{
    assert(items.push(item).drop_last() =~= items);
}

pub broadcast proof fn lemma_add_empty<T>(left: Seq<T>, right: Seq<T>)
    requires
        right.len() == 0,
    ensures
        #[trigger] (left + right) == left,
{
    assert(left + right =~= left);
}

pub broadcast group group_sequences {
    lemma_models_push,
    lemma_models_add,
    lemma_models_empty,
    lemma_take_last,
    lemma_take_all,
    lemma_push_last,
    lemma_add_empty,
}

/// What `pick` makes of the items, in order, without those that it makes nothing of.
pub open spec fn gathered<A, B>(items: Seq<A>, pick: spec_fn(A) -> Option<B>) -> Seq<B>
    decreases items.len(),
{
    if items.len() == 0 {
        Seq::empty()
    } else {
        match pick(items.last()) {
            Some(value) => gathered(items.drop_last(), pick).push(value),
            None => gathered(items.drop_last(), pick),
        }
    }
}

/// The items that `keep` holds of, in order.
pub open spec fn kept<A>(items: Seq<A>, keep: spec_fn(A) -> bool) -> Seq<A>
    decreases items.len(),
{
    if items.len() == 0 {
        Seq::empty()
    } else if keep(items.last()) {
        kept(items.drop_last(), keep).push(items.last())
    } else {
        kept(items.drop_last(), keep)
    }
}

/// How many of the items `pick` holds of.
pub open spec fn tally<A>(items: Seq<A>, pick: spec_fn(A) -> bool) -> nat
    decreases items.len(),
{
    if items.len() == 0 {
        0
    } else if pick(items.last()) {
        tally(items.drop_last(), pick) + 1
    } else {
        tally(items.drop_last(), pick)
    }
}

/// An identity hash or a link identifier: sixteen bytes, equal when the bytes are.
impl Model for [u8; 16] {
    type M = [u8; 16];

    open spec fn model(&self) -> [u8; 16] {
        *self
    }
}

impl Key for [u8; 16] {
    fn same(&self, other: &Self) -> (result: bool) {
        let mut i: usize = 0;
        while i < 16
            invariant
                i <= 16,
                forall|j: int| 0 <= j < i ==> self@[j] == other@[j],
            decreases 16 - i,
        {
            if self[i] != other[i] {
                return false;
            }
            i += 1;
        }
        assert(self@ =~= other@);
        assert(*self =~= *other);
        true
    }

    fn duplicate(&self) -> (result: Self) {
        *self
    }
}

/// A copy of a list of hashes.
pub fn copy_links(links: &Vec<[u8; 16]>) -> (result: Vec<[u8; 16]>)
    ensures
        result@ == links@,
{
    let mut result: Vec<[u8; 16]> = Vec::new();
    let mut i: usize = 0;
    while i < links.len()
        invariant
            i <= links@.len(),
            result@ == links@.take(i as int),
        decreases links@.len() - i,
    {
        result.push(links[i]);
        i += 1;
        assert(result@ =~= links@.take(i as int));
    }
    assert(links@.take(i as int) =~= links@);
    result
}

impl KeySet<[u8; 16]> {
    /// The hashes, in order.
    pub fn to_links(&self) -> (result: Vec<[u8; 16]>)
        ensures
            result@ == self.model(),
    {
        let result = self.to_vec();
        assert(result@ =~= models(result@));
        result
    }
}

impl Model for i128 {
    type M = i128;

    open spec fn model(&self) -> i128 {
        *self
    }
}

impl Key for i128 {
    fn same(&self, other: &Self) -> (result: bool) {
        *self == *other
    }

    fn duplicate(&self) -> (result: Self) {
        *self
    }
}

impl Model for bool {
    type M = bool;

    open spec fn model(&self) -> bool {
        *self
    }
}

impl Model for u128 {
    type M = u128;

    open spec fn model(&self) -> u128 {
        *self
    }
}

impl Key for u128 {
    fn same(&self, other: &Self) -> (result: bool) {
        *self == *other
    }

    fn duplicate(&self) -> (result: Self) {
        *self
    }
}

impl<T: Model> Model for Vec<T> {
    type M = Seq<T::M>;

    open spec fn model(&self) -> Seq<T::M> {
        models(self@)
    }
}

impl<T: Model> Model for Option<T> {
    type M = Option<T::M>;

    open spec fn model(&self) -> Option<T::M> {
        match self {
            Some(value) => Some(value.model()),
            None => None,
        }
    }
}

impl<K: Key> Key for Option<K> {
    fn same(&self, other: &Self) -> (result: bool) {
        match (self, other) {
            (Some(left), Some(right)) => left.same(right),
            (None, None) => true,
            _ => false,
        }
    }

    fn duplicate(&self) -> (result: Self) {
        match self {
            Some(value) => Some(value.duplicate()),
            None => None,
        }
    }
}

} // verus!
