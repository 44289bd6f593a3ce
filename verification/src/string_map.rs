//! A map from strings to values that remembers the order in which its keys
//! first came, so that whatever is written out from it comes out the same way
//! every time.
use crate::text::{chars_of, same_chars};
use vstd::prelude::*;

verus! {

/// The map that a list of entries stands for. Where a key occurs twice, the
/// later entry counts.
pub open spec fn entries_map<T>(e: Seq<(Seq<char>, T)>) -> Map<Seq<char>, T>
    decreases e.len(),
{
    if e.len() == 0 {
        Map::empty()
    } else {
        entries_map(e.drop_last()).insert(e.last().0, e.last().1)
    }
}

/// No key occurs twice.
pub open spec fn distinct_keys<T>(e: Seq<(Seq<char>, T)>) -> bool {
    forall|i: int, j: int| 0 <= i < j < e.len() ==> e[i].0 != e[j].0
}

/// The index of the first entry with key `k`, or the number of entries where
/// there is none.
pub open spec fn position<T>(e: Seq<(Seq<char>, T)>, k: Seq<char>) -> int
    decreases e.len(),
{
    if e.len() == 0 {
        0
    } else if e[0].0 == k {
        0
    } else {
        1 + position(e.skip(1), k)
    }
}

/// The entries after `k` was set to `v`: an entry with that key keeps its
/// place and takes the new value, a new key goes to the end.
pub open spec fn insert_entry<T>(e: Seq<(Seq<char>, T)>, k: Seq<char>, v: T) -> Seq<
    (Seq<char>, T),
> {
    let i = position(e, k);
    if i < e.len() {
        e.update(i, (k, v))
    } else {
        e.push((k, v))
    }
}

/// Where `position` points, and that it is the first such place.
pub proof fn lemma_position<T>(e: Seq<(Seq<char>, T)>, k: Seq<char>)
    ensures
        0 <= position(e, k) <= e.len(),
        position(e, k) < e.len() ==> e[position(e, k)].0 == k,
        forall|i: int| 0 <= i < position(e, k) ==> e[i].0 != k,
    decreases e.len(),
{
    if e.len() > 0 && e[0].0 != k {
        let rest = e.skip(1);
        lemma_position(rest, k);
        assert forall|i: int| 0 <= i < position(e, k) implies e[i].0 != k by {
            if i > 0 {
                assert(rest[i - 1] == e[i]);
            }
        }
    }
}

/// The map has exactly the keys of the entries, and with distinct keys each
/// entry's value is the one that the map gives.
pub proof fn lemma_entries_map<T>(e: Seq<(Seq<char>, T)>)
    ensures
        forall|k: Seq<char>| #[trigger]
            entries_map(e).contains_key(k) <==> position(e, k) < e.len(),
        distinct_keys(e) ==> forall|i: int|
            0 <= i < e.len() ==> entries_map(e)[#[trigger] e[i].0] == e[i].1,
        entries_map(e).dom().finite(),
        distinct_keys(e) ==> entries_map(e).len() == e.len(),
    decreases e.len(),
{
    if e.len() > 0 {
        let front = e.drop_last();
        lemma_entries_map(front);
        assert forall|k: Seq<char>| #[trigger]
            entries_map(e).contains_key(k) <==> position(e, k) < e.len() by {
            lemma_position(e, k);
            lemma_position(front, k);
            if position(front, k) < front.len() {
                assert(e[position(front, k)] == front[position(front, k)]);
            }
            if position(e, k) < front.len() {
                assert(front[position(e, k)] == e[position(e, k)]);
            }
        }
        if distinct_keys(e) {
            assert(distinct_keys(front)) by {
                assert forall|i: int, j: int| 0 <= i < j < front.len() implies front[i].0
                    != front[j].0 by {
                    assert(e[i] == front[i] && e[j] == front[j]);
                }
            }
            assert forall|i: int| 0 <= i < e.len() implies entries_map(e)[#[trigger] e[i].0]
                == e[i].1 by {
                if i < front.len() {
                    assert(front[i] == e[i]);
                    assert(e[i].0 != e.last().0);
                }
            }
            lemma_position(front, e.last().0);
            if position(front, e.last().0) < front.len() {
                assert(front[position(front, e.last().0)] == e[position(front, e.last().0)]);
            }
            assert(!entries_map(front).contains_key(e.last().0));
        }
    }
}

/// Setting a key in the entries sets it in the map, and keeps the keys
/// distinct.
pub proof fn lemma_insert_entry<T>(e: Seq<(Seq<char>, T)>, k: Seq<char>, v: T)
    requires
        distinct_keys(e),
    ensures
        distinct_keys(insert_entry(e, k, v)),
        entries_map(insert_entry(e, k, v)) == entries_map(e).insert(k, v),
{
    let after = insert_entry(e, k, v);
    lemma_position(e, k);
    let p = position(e, k);
    assert(distinct_keys(after)) by {
        assert forall|i: int, j: int| 0 <= i < j < after.len() implies after[i].0
            != after[j].0 by {
            if p < e.len() {
                assert(after[i].0 == e[i].0 && after[j].0 == e[j].0);
            }
        }
    }
    lemma_entries_map(e);
    lemma_entries_map(after);
    assert forall|key: Seq<char>| #[trigger]
        entries_map(after).contains_key(key) <==> entries_map(e).insert(k, v).contains_key(
            key,
        ) by {
        lemma_position(after, key);
        lemma_position(e, key);
        if position(after, key) < after.len() {
            let q = position(after, key);
            if key != k {
                assert(q < e.len() && e[q].0 == key);
            }
        }
        if position(e, key) < e.len() {
            let q = position(e, key);
            assert(after[q].0 == key);
        }
        if key == k {
            if p < e.len() {
                assert(after[p].0 == k);
            } else {
                assert(after[e.len() as int].0 == k);
            }
        }
    }
    assert forall|key: Seq<char>| #[trigger]
        entries_map(e).insert(k, v).contains_key(key) implies entries_map(after)[key]
        == entries_map(e).insert(k, v)[key] by {
        lemma_position(after, key);
        let q = position(after, key);
        assert(entries_map(after).contains_key(key));
        assert(entries_map(after)[after[q].0] == after[q].1);
        if key != k {
            assert(q < e.len() && e[q].0 == key);
            assert(entries_map(e)[e[q].0] == e[q].1);
        } else {
            if p < e.len() {
                assert(after[p].0 == k);
            } else {
                assert(after[e.len() as int].0 == k);
            }
        }
    }
    assert(entries_map(after) =~= entries_map(e).insert(k, v));
}

/// A map keyed by strings, kept in the order in which the keys first came.
pub struct StringMap<V: View> {
    entries: Vec<(String, V)>,
}

impl<V: View> View for StringMap<V> {
    type V = Map<Seq<char>, V::V>;

    open spec fn view(&self) -> Map<Seq<char>, V::V> {
        entries_map(self.entries())
    }
}

impl<V: View> StringMap<V> {
    /// The keys and the values' views, in order.
    pub closed spec fn entries(&self) -> Seq<(Seq<char>, V::V)> {
        Seq::new(self.entries@.len(), |i: int| (self.entries@[i].0@, self.entries@[i].1@))
    }

    #[verifier::type_invariant]
    spec fn well_formed(&self) -> bool {
        distinct_keys(self.entries())
    }

    /// A map without entries.
    pub fn new() -> (map: Self)
        ensures
            map.entries() == Seq::<(Seq<char>, V::V)>::empty(),
            map@ == Map::<Seq<char>, V::V>::empty(),
    {
        let map = StringMap { entries: Vec::new() };
        assert(map.entries() =~= Seq::<(Seq<char>, V::V)>::empty());
        map
    }

    /// The number of entries.
    pub fn len(&self) -> (n: usize)
        ensures
            n == self.entries().len(),
            n == self@.len(),
            distinct_keys(self.entries()),
    {
        proof {
            use_type_invariant(self);
            lemma_entries_map(self.entries());
        }
        self.entries.len()
    }

    /// Whether the map has no entry.
    pub fn is_empty(&self) -> (empty: bool)
        ensures
            empty == (self.entries().len() == 0),
            empty == (self@ == Map::<Seq<char>, V::V>::empty()),
    {
        proof {
            use_type_invariant(self);
            lemma_entries_map(self.entries());
            if self.entries().len() > 0 {
                assert(self@.contains_key(self.entries()[0].0));
            }
        }
        self.entries.len() == 0
    }

    /// The key of the entry at `index`.
    pub fn key_at(&self, index: usize) -> (key: &String)
        requires
            index < self.entries().len(),
        ensures
            key@ == self.entries()[index as int].0,
    {
        &self.entries[index].0
    }

    /// The value of the entry at `index`.
    pub fn value_at(&self, index: usize) -> (value: &V)
        requires
            index < self.entries().len(),
        ensures
            value@ == self.entries()[index as int].1,
    {
        &self.entries[index].1
    }

    /// The index of the entry with key `key`, or the number of entries.
    fn find(&self, key: &Vec<char>) -> (index: usize)
        ensures
            index == position(self.entries(), key@),
            index <= self.entries().len(),
    {
        let mut i: usize = 0;
        proof {
            lemma_position(self.entries(), key@);
        }
        while i < self.entries.len()
            invariant
                i <= self.entries.len(),
                self.entries@.len() == self.entries().len(),
                i <= position(self.entries(), key@) <= self.entries().len(),
                position(self.entries(), key@) < self.entries().len() ==> self.entries()[position(
                    self.entries(),
                    key@,
                )].0 == key@,
                forall|j: int|
                    0 <= j < position(self.entries(), key@) ==> self.entries()[j].0 != key@,
            decreases self.entries.len() - i,
        {
            let here = chars_of(self.entries[i].0.as_str());
            if same_chars(&here, key) {
                assert(self.entries()[i as int].0 == key@);
                return i;
            }
            assert(self.entries()[i as int].0 != key@);
            i += 1;
        }
        i
    }

    /// Puts `key` and `value` at `index`: over the entry there, or at the end.
    fn put(&mut self, index: usize, key: String, value: V)
        requires
            index == position(old(self).entries(), key@),
        ensures
            final(self).entries() == insert_entry(old(self).entries(), key@, value@),
    {
        proof {
            use_type_invariant(&*self);
            lemma_position(self.entries(), key@);
            lemma_insert_entry(self.entries(), key@, value@);
        }
        let ghost before = self.entries();
        let mut entries: Vec<(String, V)> = Vec::new();
        core::mem::swap(&mut self.entries, &mut entries);
        assert(self.entries() =~= Seq::<(Seq<char>, V::V)>::empty());
        if index < entries.len() {
            entries.set(index, (key, value));
        } else {
            entries.push((key, value));
        }
        proof {
            let after = Seq::new(entries@.len(), |i: int| (entries@[i].0@, entries@[i].1@));
            assert(after =~= insert_entry(before, key@, value@));
        }
        core::mem::swap(&mut self.entries, &mut entries);
        assert(self.entries() =~= insert_entry(before, key@, value@));
    }

    /// Whether the map has an entry for `key`.
    pub fn contains_key(&self, key: &str) -> (found: bool)
        ensures
            found == self@.contains_key(key@),
    {
        let chars = chars_of(key);
        let index = self.find(&chars);
        proof {
            lemma_entries_map(self.entries());
        }
        index < self.entries.len()
    }

    /// The value for `key`, if the map has one.
    pub fn get(&self, key: &str) -> (value: Option<&V>)
        ensures
            match value {
                Some(v) => self@.contains_key(key@) && v@ == self@[key@],
                None => !self@.contains_key(key@),
            },
    {
        let chars = chars_of(key);
        let index = self.find(&chars);
        proof {
            use_type_invariant(self);
            lemma_entries_map(self.entries());
            lemma_position(self.entries(), key@);
        }
        if index < self.entries.len() {
            assert(self@[self.entries()[index as int].0] == self.entries()[index as int].1);
            Some(&self.entries[index].1)
        } else {
            None
        }
    }

    /// Sets `key` to `value`, whether or not it had a value before.
    pub fn insert(&mut self, key: String, value: V)
        ensures
            final(self).entries() == insert_entry(old(self).entries(), key@, value@),
            final(self)@ == old(self)@.insert(key@, value@),
    {
        let chars = chars_of(key.as_str());
        let index = self.find(&chars);
        proof {
            use_type_invariant(&*self);
            lemma_insert_entry(self.entries(), key@, value@);
        }
        let ghost before = self.entries();
        self.put(index, key, value);
    }

    /// Sets `key` to `value` unless it has a value already.
    pub fn insert_if_absent(&mut self, key: String, value: V)
        ensures
            final(self).entries() == if old(self)@.contains_key(key@) {
                old(self).entries()
            } else {
                old(self).entries().push((key@, value@))
            },
            final(self)@ == if old(self)@.contains_key(key@) {
                old(self)@
            } else {
                old(self)@.insert(key@, value@)
            },
    {
        let chars = chars_of(key.as_str());
        let index = self.find(&chars);
        proof {
            use_type_invariant(&*self);
            lemma_entries_map(self.entries());
            lemma_insert_entry(self.entries(), key@, value@);
        }
        let ghost before = self.entries();
        if index >= self.entries.len() {
            self.put(index, key, value);
        }
    }

    /// Removes every entry.
    pub fn clear(&mut self)
        ensures
            final(self).entries() == Seq::<(Seq<char>, V::V)>::empty(),
            final(self)@ == Map::<Seq<char>, V::V>::empty(),
    {
        self.entries = Vec::new();
        assert(self.entries() =~= Seq::<(Seq<char>, V::V)>::empty());
    }
}

} // verus!
