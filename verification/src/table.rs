//! Small keyed tables that keep their entries in insertion order.

use vstd::prelude::*;

verus! {

/// A value that can be copied: the copy has the model of the value it was made from.
pub trait Duplicate: DeepView + Sized {
    /// A copy of the value.
    fn duplicate(&self) -> (r: Self)
        ensures
            r.deep_view() == self.deep_view(),
    ;
}

/// A key of a [`Table`]: a value whose model can be compared.
pub trait Key: Duplicate {
    /// Whether two keys have the same model.
    fn same(&self, other: &Self) -> (r: bool)
        ensures
            r == (self.deep_view() == other.deep_view()),
    ;
}

impl Duplicate for String {
    fn duplicate(&self) -> (r: Self) {
        self.clone()
    }
}

impl Key for String {
    fn same(&self, other: &Self) -> (r: bool) {
        *self == *other
    }
}

impl Duplicate for u64 {
    fn duplicate(&self) -> (r: Self) {
        *self
    }
}

impl Key for u64 {
    fn same(&self, other: &Self) -> (r: bool) {
        *self == *other
    }
}

impl<A: Duplicate, B: Duplicate> Duplicate for (A, B) {
    fn duplicate(&self) -> (r: Self) {
        (self.0.duplicate(), self.1.duplicate())
    }
}

impl Key for (String, String) {
    fn same(&self, other: &Self) -> (r: bool) {
        self.0 == other.0 && self.1 == other.1
    }
}

/// A copy of a list.
pub fn copy_list<T: Duplicate>(list: &Vec<T>) -> (r: Vec<T>)
    ensures
        r.deep_view() == list.deep_view(),
{
    let mut copy: Vec<T> = Vec::new();
    let mut i: usize = 0;
    while i < list.len()
        invariant
            i <= list.len(),
            copy.len() == i,
            forall|j: int| 0 <= j < i ==> copy@[j].deep_view() == list@[j].deep_view(),
        decreases list.len() - i,
    {
        copy.push(list[i].duplicate());
        i += 1;
    }
    assert(copy.deep_view() =~= list.deep_view());
    copy
}

/// Entry `i` of `s` exists and is filed under `k`.
pub open spec fn at_key<A, B>(s: Seq<(A, B)>, i: int, k: A) -> bool {
    0 <= i < s.len() && s[i].0 == k
}

/// Some entry of `s` is filed under `k`.
pub open spec fn has_key<A, B>(s: Seq<(A, B)>, k: A) -> bool {
    exists|i: int| at_key(s, i, k)
}

/// The place of an entry filed under `k`, where there is one.
pub open spec fn index_of_key<A, B>(s: Seq<(A, B)>, k: A) -> int {
    choose|i: int| at_key(s, i, k)
}

/// What `s` holds under `k`.
pub open spec fn lookup<A, B>(s: Seq<(A, B)>, k: A) -> Option<B> {
    if has_key(s, k) {
        Some(s[index_of_key(s, k)].1)
    } else {
        None
    }
}

/// No two entries of `s` share a key.
pub open spec fn distinct_keys<A, B>(s: Seq<(A, B)>) -> bool {
    forall|i: int, j: int| #![trigger s[i], s[j]] 0 <= i < j < s.len() ==> s[i].0 != s[j].0
}

/// `s` with `v` filed under `k`: in place of the entry that was there, or
/// else at the end.
pub open spec fn put<A, B>(s: Seq<(A, B)>, k: A, v: B) -> Seq<(A, B)> {
    if has_key(s, k) {
        s.update(index_of_key(s, k), (k, v))
    } else {
        s.push((k, v))
    }
}

/// `s` without the entry filed under `k`.
pub open spec fn without<A, B>(s: Seq<(A, B)>, k: A) -> Seq<(A, B)> {
    if has_key(s, k) {
        s.remove(index_of_key(s, k))
    } else {
        s
    }
}

/// In a sequence with distinct keys the place of a key is unique.
pub proof fn lemma_index_unique<A, B>(s: Seq<(A, B)>, i: int, k: A)
    requires
        distinct_keys(s),
        at_key(s, i, k),
    ensures
        has_key(s, k),
        index_of_key(s, k) == i,
        lookup(s, k) == Some(s[i].1),
{
    let j = index_of_key(s, k);
    assert(at_key(s, j, k));
    if j < i {
        assert(s[j].0 != s[i].0);
    } else if i < j {
        assert(s[i].0 != s[j].0);
    }
}

/// Filing under a key keeps the keys distinct, is seen by a later lookup of
/// that key, and leaves every other key as it was.
pub proof fn lemma_put<A, B>(s: Seq<(A, B)>, k: A, v: B, other: A)
    requires
        distinct_keys(s),
    ensures
        distinct_keys(put(s, k, v)),
        lookup(put(s, k, v), k) == Some(v),
        other != k ==> lookup(put(s, k, v), other) == lookup(s, other),
        other != k ==> (has_key(put(s, k, v), other) <==> has_key(s, other)),
{
    let t = put(s, k, v);
    if has_key(s, k) {
        let i = index_of_key(s, k);
        assert(at_key(s, i, k));
        assert forall|a: int, b: int| #![trigger t[a], t[b]] 0 <= a < b < t.len() implies t[a].0
            != t[b].0 by {
            assert(s[a].0 != s[b].0);
        }
        assert(at_key(t, i, k));
        lemma_index_unique(t, i, k);
        if other != k {
            if has_key(s, other) {
                let j = index_of_key(s, other);
                assert(at_key(s, j, other));
                assert(at_key(t, j, other));
                lemma_index_unique(t, j, other);
            }
            if has_key(t, other) {
                let j = index_of_key(t, other);
                assert(at_key(t, j, other));
                assert(at_key(s, j, other));
                lemma_index_unique(s, j, other);
            }
        }
    } else {
        assert forall|a: int, b: int| #![trigger t[a], t[b]] 0 <= a < b < t.len() implies t[a].0
            != t[b].0 by {
            if b < s.len() {
                assert(s[a].0 != s[b].0);
            } else {
                assert(!at_key(s, a, k));
            }
        }
        assert(at_key(t, s.len() as int, k));
        lemma_index_unique(t, s.len() as int, k);
        if other != k {
            if has_key(s, other) {
                let j = index_of_key(s, other);
                assert(at_key(s, j, other));
                assert(at_key(t, j, other));
                lemma_index_unique(t, j, other);
            }
            if has_key(t, other) {
                let j = index_of_key(t, other);
                assert(at_key(t, j, other));
                assert(at_key(s, j, other));
                lemma_index_unique(s, j, other);
            }
        }
    }
}

/// Removing a key keeps the keys distinct, empties that key, and leaves
/// every other key as it was.
pub proof fn lemma_without<A, B>(s: Seq<(A, B)>, k: A, other: A)
    requires
        distinct_keys(s),
    ensures
        distinct_keys(without(s, k)),
        !has_key(without(s, k), k),
        other != k ==> lookup(without(s, k), other) == lookup(s, other),
{
    let t = without(s, k);
    if has_key(s, k) {
        let i = index_of_key(s, k);
        assert(at_key(s, i, k));
        assert forall|a: int, b: int| #![trigger t[a], t[b]] 0 <= a < b < t.len() implies t[a].0
            != t[b].0 by {
            let a0 = if a < i { a } else { a + 1 };
            let b0 = if b < i { b } else { b + 1 };
            assert(s[a0].0 != s[b0].0);
        }
        if has_key(t, k) {
            let j = index_of_key(t, k);
            assert(at_key(t, j, k));
            let j0 = if j < i { j } else { j + 1 };
            assert(at_key(s, j0, k));
            lemma_index_unique(s, j0, k);
        }
        if other != k {
            if has_key(s, other) {
                let j = index_of_key(s, other);
                assert(at_key(s, j, other));
                let j1 = if j < i { j } else { j - 1 };
                assert(at_key(t, j1, other));
                lemma_index_unique(t, j1, other);
            }
            if has_key(t, other) {
                let j = index_of_key(t, other);
                assert(at_key(t, j, other));
                let j0 = if j < i { j } else { j + 1 };
                assert(at_key(s, j0, other));
                lemma_index_unique(s, j0, other);
            }
        }
    }
}

/// A table from keys to values. In a well-formed table each key occurs at
/// most once; the entries stay in the order in which their keys were first
/// filed.
#[derive(Debug, Clone, PartialEq, Eq)]
pub struct Table<K: Key, V: DeepView> {
    entries: Vec<(K, V)>,
}

impl<K: Key, V: DeepView> DeepView for Table<K, V> {
    type V = Seq<(K::V, V::V)>;

    closed spec fn deep_view(&self) -> Seq<(K::V, V::V)> {
        self.entries.deep_view()
    }
}

impl<K: Key, V: DeepView> View for Table<K, V> {
    type V = Seq<(K::V, V::V)>;

    open spec fn view(&self) -> Seq<(K::V, V::V)> {
        self.deep_view()
    }
}

impl<K: Key, V: DeepView> Table<K, V> {
    /// The table is well formed: no key occurs twice.
    pub open spec fn wf(&self) -> bool {
        distinct_keys(self@)
    }

    /// The empty table.
    pub fn new() -> (r: Self)
        ensures
            r@ == Seq::<(K::V, V::V)>::empty(),
            r.wf(),
    {
        let r = Table { entries: Vec::new() };
        assert(r.entries.deep_view() =~= Seq::<(K::V, V::V)>::empty());
        r
    }

    /// Whether the table is well formed. Tables that are made with
    /// [`Table::new`] and changed by the methods of this type always are.
    pub fn check(&self) -> (r: bool)
        ensures
            r == self.wf(),
    {
        let mut i: usize = 0;
        while i < self.entries.len()
            invariant
                i <= self.entries.len(),
                forall|a: int, b: int|
                    #![trigger self@[a], self@[b]]
                    0 <= a < b < self@.len() && a < i ==> self@[a].0 != self@[b].0,
            decreases self.entries.len() - i,
        {
            let mut j: usize = i + 1;
            while j < self.entries.len()
                invariant
                    i < j <= self.entries.len(),
                    forall|a: int, b: int|
                        #![trigger self@[a], self@[b]]
                        0 <= a < b < self@.len() && a < i ==> self@[a].0 != self@[b].0,
                    forall|b: int| i < b < j ==> self@[i as int].0 != (#[trigger] self@[b]).0,
                decreases self.entries.len() - j,
            {
                if self.entries[i].0.same(&self.entries[j].0) {
                    assert(self@[i as int].0 == self@[j as int].0);
                    return false;
                }
                j += 1;
            }
            i += 1;
        }
        true
    }

    /// The number of entries.
    pub fn len(&self) -> (r: usize)
        ensures
            r == self@.len(),
    {
        self.entries.len()
    }

    /// The place of `key`, if the table holds it.
    pub fn position(&self, key: &K) -> (r: Option<usize>)
        requires
            self.wf(),
        ensures
            match r {
                Some(i) => at_key(self@, i as int, key.deep_view()) && index_of_key(
                    self@,
                    key.deep_view(),
                ) == i && has_key(self@, key.deep_view()),
                None => !has_key(self@, key.deep_view()),
            },
    {
        let mut i: usize = 0;
        while i < self.entries.len()
            invariant
                self.wf(),
                i <= self.entries.len(),
                forall|j: int| 0 <= j < i ==> !at_key(self@, j, key.deep_view()),
            decreases self.entries.len() - i,
        {
            if self.entries[i].0.same(key) {
                proof {
                    assert(at_key(self@, i as int, key.deep_view()));
                    lemma_index_unique(self@, i as int, key.deep_view());
                }
                return Some(i);
            }
            i += 1;
        }
        None
    }

    /// The key at place `i`.
    pub fn key_at(&self, i: usize) -> (r: &K)
        requires
            i < self@.len(),
        ensures
            r.deep_view() == self@[i as int].0,
    {
        &self.entries[i].0
    }

    /// The value at place `i`.
    pub fn value_at(&self, i: usize) -> (r: &V)
        requires
            i < self@.len(),
        ensures
            r.deep_view() == self@[i as int].1,
    {
        &self.entries[i].1
    }

    /// The value filed under `key`.
    pub fn get(&self, key: &K) -> (r: Option<&V>)
        requires
            self.wf(),
        ensures
            r.deep_view() == lookup(self@, key.deep_view()),
    {
        match self.position(key) {
            Some(i) => Some(&self.entries[i].1),
            None => None,
        }
    }

    /// Files `value` under `key` and hands back what was there before.
    pub fn put(&mut self, key: K, value: V) -> (r: Option<V>)
        requires
            old(self).wf(),
        ensures
            final(self).wf(),
            final(self)@ == put(old(self)@, key.deep_view(), value.deep_view()),
            r.deep_view() == lookup(old(self)@, key.deep_view()),
    {
        let ghost before = self@;
        let ghost k = key.deep_view();
        let ghost v = value.deep_view();
        proof {
            lemma_put(before, k, v, k);
        }
        match self.position(&key) {
            Some(i) => {
                self.entries.push((key, value));
                let gone = self.entries.swap_remove(i);
                assert(self.entries.deep_view() =~= before.update(i as int, (k, v)));
                Some(gone.1)
            },
            None => {
                self.entries.push((key, value));
                assert(self.entries.deep_view() =~= before.push((k, v)));
                None
            },
        }
    }

    /// Puts an entry in at place `i`, under a key that the table does not
    /// hold.
    pub fn insert_at(&mut self, i: usize, key: K, value: V)
        requires
            old(self).wf(),
            i <= old(self)@.len(),
            !has_key(old(self)@, key.deep_view()),
        ensures
            final(self).wf(),
            final(self)@ == old(self)@.insert(i as int, (key.deep_view(), value.deep_view())),
    {
        let ghost before = self@;
        let ghost entry = (key.deep_view(), value.deep_view());
        self.entries.insert(i, (key, value));
        proof {
            let after = before.insert(i as int, entry);
            assert(self.entries.deep_view() =~= after);
            assert forall|a: int, b: int| #![trigger after[a], after[b]] 0 <= a < b
                < after.len() implies after[a].0 != after[b].0 by {
                let a0 = if a < i { a } else { a - 1 };
                let b0 = if b < i { b } else { b - 1 };
                if a == i {
                    assert(!at_key(before, b0, entry.0));
                } else if b == i {
                    assert(!at_key(before, a0, entry.0));
                } else {
                    assert(before[a0].0 != before[b0].0);
                }
            }
        }
    }

    /// Removes the entry at place `i` and hands it back.
    pub fn remove_at(&mut self, i: usize) -> (r: (K, V))
        requires
            old(self).wf(),
            i < old(self)@.len(),
        ensures
            final(self).wf(),
            final(self)@ == old(self)@.remove(i as int),
            r.deep_view() == old(self)@[i as int],
    {
        let ghost before = self@;
        let gone = self.entries.remove(i);
        proof {
            let after = before.remove(i as int);
            assert(self.entries.deep_view() =~= after);
            assert forall|a: int, b: int| #![trigger after[a], after[b]] 0 <= a < b
                < after.len() implies after[a].0 != after[b].0 by {
                let a0 = if a < i { a } else { a + 1 };
                let b0 = if b < i { b } else { b + 1 };
                assert(before[a0].0 != before[b0].0);
            }
        }
        gone
    }

    /// Removes the entry filed under `key` and hands back its value.
    pub fn take(&mut self, key: &K) -> (r: Option<V>)
        requires
            old(self).wf(),
        ensures
            final(self).wf(),
            final(self)@ == without(old(self)@, key.deep_view()),
            r.deep_view() == lookup(old(self)@, key.deep_view()),
    {
        let ghost before = self@;
        let ghost k = key.deep_view();
        proof {
            lemma_without(before, k, k);
        }
        match self.position(key) {
            Some(i) => {
                let gone = self.entries.remove(i);
                assert(self.entries.deep_view() =~= before.remove(i as int));
                Some(gone.1)
            },
            None => None,
        }
    }
}

impl<K: Key, V: Duplicate> Table<K, V> {
    /// The entries of the table, copied, in their order.
    pub fn entries(&self) -> (r: Vec<(K, V)>)
        ensures
            r.deep_view() == self@,
    {
        let mut copy: Vec<(K, V)> = Vec::new();
        let mut i: usize = 0;
        while i < self.entries.len()
            invariant
                i <= self.entries.len(),
                copy.len() == i,
                forall|j: int| 0 <= j < i ==> copy@[j].deep_view() == self.entries@[j].deep_view(),
            decreases self.entries.len() - i,
        {
            copy.push((self.entries[i].0.duplicate(), self.entries[i].1.duplicate()));
            i += 1;
        }
        assert(copy.deep_view() =~= self.entries.deep_view());
        copy
    }
}

impl<K: Key, V: Duplicate> Duplicate for Table<K, V> {
    fn duplicate(&self) -> (r: Self) {
        Table { entries: self.entries() }
    }
}

} // verus!
