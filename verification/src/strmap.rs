//! A map with text keys that keeps its entries in the order in which their keys
//! were first put in.

use crate::text::same;
use vstd::prelude::*;

verus! {

/// The keys of a list of entries.
pub open spec fn entry_keys<V>(e: Seq<(String, V)>) -> Seq<Seq<char>> {
    e.map_values(|x: (String, V)| x.0@)
}

/// The map that a list of entries stands for.
pub open spec fn entry_map<V>(e: Seq<(String, V)>) -> Map<Seq<char>, V>
    decreases e.len(),
{
    if e.len() == 0 {
        Map::empty()
    } else {
        entry_map(e.drop_last()).insert(e.last().0@, e.last().1)
    }
}

/// The map of entries with distinct keys holds exactly those entries.
pub proof fn lemma_entry_map<V>(e: Seq<(String, V)>)
    requires
        entry_keys(e).no_duplicates(),
    ensures
        forall|k: Seq<char>| #[trigger]
            entry_map(e).contains_key(k) <==> entry_keys(e).contains(k),
        forall|i: int|
            0 <= i < e.len() ==> entry_map(e).contains_key((#[trigger] e[i]).0@) && entry_map(
                e,
            )[e[i].0@] == e[i].1,
        entry_map(e).dom().finite(),
    decreases e.len(),
{
    if e.len() > 0 {
        let front = e.drop_last();
        let last = e.last();
        assert(entry_keys(front) =~= entry_keys(e).drop_last());
        lemma_entry_map(front);
        assert forall|k: Seq<char>| #[trigger]
            entry_map(e).contains_key(k) <==> entry_keys(e).contains(k) by {
            if entry_map(e).contains_key(k) {
                if k == last.0@ {
                    assert(entry_keys(e)[e.len() - 1] == k);
                } else {
                    assert(entry_map(front).contains_key(k));
                    let i = choose|i: int| 0 <= i < front.len() && entry_keys(front)[i] == k;
                    assert(entry_keys(e)[i] == k);
                }
            }
            if entry_keys(e).contains(k) {
                let i = choose|i: int| 0 <= i < e.len() && entry_keys(e)[i] == k;
                if i < e.len() - 1 {
                    assert(entry_keys(front)[i] == k);
                }
            }
        }
        assert forall|i: int| 0 <= i < e.len() implies entry_map(e).contains_key(
            (#[trigger] e[i]).0@,
        ) && entry_map(e)[e[i].0@] == e[i].1 by {
            assert(entry_keys(e)[i] == e[i].0@);
            if i < e.len() - 1 {
                assert(front[i] == e[i]);
                assert(entry_keys(e)[e.len() - 1] == last.0@);
            }
        }
    }
}

/// A map from text to `V`.
#[derive(Debug)]
pub struct StrMap<V> {
    pub(crate) entries: Vec<(String, V)>,
}

impl<V> View for StrMap<V> {
    type V = Map<Seq<char>, V>;

    closed spec fn view(&self) -> Map<Seq<char>, V> {
        entry_map(self.entries@)
    }
}

impl<V> StrMap<V> {
    /// No key stands twice. Every map that code can hold is so.
    #[verifier::type_invariant]
    pub closed spec fn wf(self) -> bool {
        entry_keys(self.entries@).no_duplicates()
    }

    /// The entries in order.
    pub closed spec fn list(self) -> Seq<(String, V)> {
        self.entries@
    }

    /// The keys in order.
    pub closed spec fn keys(self) -> Seq<Seq<char>> {
        entry_keys(self.entries@)
    }

    /// The map, its keys and its entries say the same thing.
    pub proof fn lemma_shape(self)
        requires
            self.wf(),
        ensures
            self.keys().no_duplicates(),
            self.keys().len() == self.list().len(),
            forall|k: Seq<char>| #[trigger] self@.contains_key(k) <==> self.keys().contains(k),
            forall|i: int|
                0 <= i < self.list().len() ==> self.keys()[i] == (#[trigger] self.list()[i]).0@
                    && self@.contains_key(self.keys()[i]) && self@[self.keys()[i]]
                    == self.list()[i].1,
            self@.dom().finite(),
    {
        lemma_entry_map(self.entries@);
    }

    /// What the entries that are held stand for.
    pub(crate) proof fn lemma_entries(self)
        requires
            self.wf(),
        ensures
            entry_keys(self.entries@).no_duplicates(),
            self@ == entry_map(self.entries@),
            self.keys() == entry_keys(self.entries@),
            self.list() == self.entries@,
    {
    }

    /// The empty map.
    pub fn new() -> (r: Self)
        ensures
            r@ == Map::<Seq<char>, V>::empty(),
            r.keys() == Seq::<Seq<char>>::empty(),
            r.list() == Seq::<(String, V)>::empty(),
    {
        let r = StrMap { entries: Vec::new() };
        proof {
            assert(r.keys() =~= Seq::<Seq<char>>::empty());
        }
        r
    }

    /// The map with the given entries, in their order.
    pub fn from_entries(entries: Vec<(String, V)>) -> (r: Self)
        requires
            entry_keys(entries@).no_duplicates(),
        ensures
            r.list() == entries@,
            r.keys() == entry_keys(entries@),
            r@ == entry_map(entries@),
    {
        StrMap { entries }
    }

    /// How many entries there are.
    pub fn len(&self) -> (n: usize)
        ensures
            n == self.keys().len(),
            n == self.list().len(),
    {
        self.entries.len()
    }

    /// Whether there is no entry.
    pub fn is_empty(&self) -> (r: bool)
        ensures
            r == (self.keys().len() == 0),
            r == (self@ =~= Map::<Seq<char>, V>::empty()),
    {
        proof {
            use_type_invariant(&*self);
            self.lemma_shape();
            if self.keys().len() > 0 {
                assert(self@.contains_key(self.keys()[0]));
            } else {
                assert(self@ =~= Map::<Seq<char>, V>::empty());
            }
        }
        self.entries.len() == 0
    }

    /// The position of a key.
    fn position(&self, key: &str) -> (r: Option<usize>)
        ensures
            r matches Some(i) ==> i < self.entries@.len() && self.entries@[i as int].0@ == key@
                && self@.contains_key(key@) && self@[key@] == self.entries@[i as int].1,
            r is None <==> !self@.contains_key(key@),
    {
        proof {
            use_type_invariant(&*self);
            self.lemma_shape();
        }
        let mut i: usize = 0;
        while i < self.entries.len()
            invariant
                i <= self.entries.len(),
                forall|j: int| 0 <= j < i ==> (#[trigger] self.entries@[j]).0@ != key@,
                forall|j: int|
                    0 <= j < self.entries@.len() ==> self.keys()[j] == (
                    #[trigger] self.entries@[j]).0@ && self@.contains_key(self.keys()[j])
                        && self@[self.keys()[j]] == self.entries@[j].1,
                self.keys().len() == self.entries@.len(),
                forall|k: Seq<char>| #[trigger] self@.contains_key(k) <==> self.keys().contains(k),
            decreases self.entries.len() - i,
        {
            if same(self.entries[i].0.as_str(), key) {
                return Some(i);
            }
            i = i + 1;
        }
        proof {
            if self@.contains_key(key@) {
                let j = choose|j: int| 0 <= j < self.keys().len() && self.keys()[j] == key@;
                assert(self.entries@[j].0@ == key@);
            }
        }
        None
    }

    /// Whether a key is there.
    pub fn contains_key(&self, key: &str) -> (r: bool)
        ensures
            r == self@.contains_key(key@),
    {
        self.position(key).is_some()
    }

    /// The value of a key.
    pub fn get(&self, key: &str) -> (r: Option<&V>)
        ensures
            r is Some <==> self@.contains_key(key@),
            r matches Some(v) ==> *v == self@[key@],
    {
        match self.position(key) {
            Some(i) => Some(&self.entries[i].1),
            None => None,
        }
    }

    /// The key of the entry at a position.
    pub fn key_at(&self, i: usize) -> (r: &String)
        requires
            i < self.keys().len(),
        ensures
            r@ == self.keys()[i as int],
            *r == self.list()[i as int].0,
    {
        &self.entries[i].0
    }

    /// The value of the entry at a position.
    pub fn value_at(&self, i: usize) -> (r: &V)
        requires
            i < self.keys().len(),
        ensures
            *r == self@[self.keys()[i as int]],
            *r == self.list()[i as int].1,
    {
        proof {
            use_type_invariant(&*self);
            self.lemma_shape();
            assert(self.list()[i as int] == self.entries@[i as int]);
        }
        &self.entries[i].1
    }

    /// Gives a key a value and hands out the value that it had. A key that is there
    /// keeps its place.
    pub fn replace(&mut self, key: String, value: V) -> (r: Option<V>)
        ensures
            final(self)@ == old(self)@.insert(key@, value),
            r is Some <==> old(self)@.contains_key(key@),
            r matches Some(v) ==> v == old(self)@[key@],
            final(self).keys() == if old(self)@.contains_key(key@) {
                old(self).keys()
            } else {
                old(self).keys().push(key@)
            },
    {
        match self.position(key.as_str()) {
            Some(i) => {
                proof {
                    use_type_invariant(&*self);
                    self.lemma_shape();
                }
                let ghost before = self.entries@;
                let mut entries: Vec<(String, V)> = Vec::new();
                std::mem::swap(&mut entries, &mut self.entries);
                let ghost k = key@;
                let was = entries.remove(i);
                entries.insert(i, (key, value));
                proof {
                    assert(entries@ =~= before.update(i as int, entries@[i as int]));
                    assert(entry_keys(entries@) =~= entry_keys(before));
                    lemma_entry_map(before);
                    lemma_entry_map(entries@);
                    assert forall|x: Seq<char>| #[trigger]
                        entry_map(entries@).contains_key(x) implies entry_map(entries@)[x]
                        == entry_map(before).insert(k, value)[x] by {
                        let j = choose|j: int|
                            0 <= j < entries@.len() && entry_keys(entries@)[j] == x;
                        assert(entries@[j].0@ == x);
                        assert(before[j].0@ == x);
                        if x == k {
                            assert(entry_keys(before)[j] == entry_keys(before)[i as int]);
                        }
                    }
                    assert(entry_map(entries@) =~= entry_map(before).insert(k, value));
                }
                std::mem::swap(&mut entries, &mut self.entries);
                Some(was.1)
            },
            None => {
                self.insert(key, value);
                None
            },
        }
    }

    /// Gives a key a value. A key that is there keeps its place.
    pub fn insert(&mut self, key: String, value: V)
        ensures
            final(self)@ == old(self)@.insert(key@, value),
            final(self).keys() == if old(self)@.contains_key(key@) {
                old(self).keys()
            } else {
                old(self).keys().push(key@)
            },
    {
        proof {
            use_type_invariant(&*self);
            self.lemma_shape();
        }
        let found = self.position(key.as_str());
        let ghost before = self.entries@;
        let mut entries: Vec<(String, V)> = Vec::new();
        std::mem::swap(&mut entries, &mut self.entries);
        match found {
            Some(i) => {
                let ghost old_key = before[i as int].0;
                entries.set(i, (key, value));
                proof {
                    assert(entry_keys(entries@) =~= entry_keys(before));
                    lemma_entry_map(before);
                    lemma_entry_map(entries@);
                    assert forall|k: Seq<char>| #[trigger]
                        entry_map(entries@).contains_key(k) implies entry_map(entries@)[k]
                        == entry_map(before).insert(key@, value)[k] by {
                        let j = choose|j: int|
                            0 <= j < entries@.len() && entry_keys(entries@)[j] == k;
                        assert(entries@[j].0@ == k);
                        assert(before[j].0@ == k);
                        if j == i {
                        } else {
                            assert(entry_keys(before)[j] != entry_keys(before)[i as int]);
                        }
                    }
                    assert(entry_keys(before)[i as int] == key@);
                    assert(entry_map(entries@) =~= entry_map(before).insert(key@, value));
                }
            },
            None => {
                entries.push((key, value));
                proof {
                    assert(entry_keys(entries@) =~= entry_keys(before).push(key@));
                    assert(entries@.drop_last() =~= before);
                }
            },
        }
        self.entries = entries;
    }

    /// Takes a key out.
    pub fn remove(&mut self, key: &str) -> (r: Option<V>)
        ensures
            final(self)@ == old(self)@.remove(key@),
            r is Some <==> old(self)@.contains_key(key@),
            r matches Some(v) ==> v == old(self)@[key@],
            final(self).keys() == if old(self)@.contains_key(key@) {
                old(self).keys().remove(old(self).keys().index_of(key@))
            } else {
                old(self).keys()
            },
    {
        proof {
            use_type_invariant(&*self);
            self.lemma_shape();
        }
        let found = self.position(key);
        let ghost before = self.entries@;
        match found {
            Some(i) => {
                let mut entries: Vec<(String, V)> = Vec::new();
                std::mem::swap(&mut entries, &mut self.entries);
                let (_, value) = entries.remove(i);
                proof {
                    let old_keys = entry_keys(before);
                    assert(old_keys[i as int] == key@);
                    assert(old_keys.index_of(key@) == i);
                    assert(entry_keys(entries@) =~= old_keys.remove(i as int));
                    assert forall|a: int, b: int|
                        0 <= a < entries@.len() && 0 <= b < entries@.len() && a
                            != b implies entry_keys(entries@)[a] != entry_keys(entries@)[b] by {
                        let a2 = if a < i { a } else { a + 1 };
                        let b2 = if b < i { b } else { b + 1 };
                        assert(old_keys[a2] != old_keys[b2]);
                    }
                    lemma_entry_map(before);
                    lemma_entry_map(entries@);
                    assert forall|k: Seq<char>| #[trigger]
                        entry_map(entries@).contains_key(k) <==> entry_map(before).remove(
                            key@,
                        ).contains_key(k) by {
                        if entry_map(entries@).contains_key(k) {
                            let j = choose|j: int|
                                0 <= j < entries@.len() && entry_keys(entries@)[j] == k;
                            let j2 = if j < i { j } else { j + 1 };
                            assert(old_keys[j2] == k);
                        }
                        if entry_map(before).remove(key@).contains_key(k) {
                            let j = choose|j: int| 0 <= j < before.len() && old_keys[j] == k;
                            let j2 = if j < i { j } else { j - 1 };
                            assert(entry_keys(entries@)[j2] == k);
                        }
                    }
                    assert forall|k: Seq<char>| #[trigger]
                        entry_map(entries@).contains_key(k) implies entry_map(entries@)[k]
                        == entry_map(before)[k] by {
                        let j = choose|j: int|
                            0 <= j < entries@.len() && entry_keys(entries@)[j] == k;
                        assert(entries@[j].0@ == k);
                        let j2 = if j < i { j } else { j + 1 };
                        assert(before[j2] == entries@[j]);
                    }
                    assert(entry_map(entries@) =~= entry_map(before).remove(key@));
                }
                self.entries = entries;
                Some(value)
            },
            None => {
                proof {
                    assert(old(self)@.remove(key@) =~= old(self)@);
                }
                None
            },
        }
    }
}

} // verus!
