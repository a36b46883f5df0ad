//! The record store the board reads and writes: a map from string keys to
//! values, with a fixed enumeration order for listing every value.

use vstd::prelude::*;
use crate::task::Task;
use crate::text::{copy_list, str_eq, views};

verus! {

/// A value that can be stored: it can be copied without changing its model.
pub trait Record: DeepView + Sized {
    fn duplicate(&self) -> (r: Self)
        ensures
            r.deep_view() == self.deep_view(),
    ;
}

impl Record for Task {
    fn duplicate(&self) -> (r: Task) {
        self.clone()
    }
}

impl Record for Vec<String> {
    fn duplicate(&self) -> (r: Vec<String>) {
        let r = copy_list(self);
        assert(r.deep_view() =~= views(r@));
        assert(self.deep_view() =~= views(self@));
        r
    }
}

/// Key-value storage of records.
pub trait Store<T: Record>: Sized {
    /// What the store holds, by key.
    spec fn contents(&self) -> Map<Seq<char>, T::V>;

    /// The order in which `get_all` lists the keys.
    spec fn order(&self) -> Seq<Seq<char>>;

    /// Every stored value, in the store's enumeration order.
    fn get_all(&self) -> (r: Vec<T>)
        ensures
            self.order().no_duplicates(),
            self.order().to_set() == self.contents().dom(),
            r.deep_view() == self.order().map_values(|k: Seq<char>| self.contents()[k]),
    ;

    /// The value stored under `key`, if any.
    fn get(&self, key: &str) -> (r: Option<T>)
        ensures
            match r {
                Some(v) => self.contents().contains_key(key@) && v.deep_view()
                    == self.contents()[key@],
                None => !self.contents().contains_key(key@),
            },
    ;

    /// Stores `value` under `key`, replacing what was there.
    fn set(&mut self, key: &str, value: T)
        ensures
            final(self).contents() == old(self).contents().insert(key@, value.deep_view()),
    ;

    /// Removes whatever is stored under `key`.
    fn rm(&mut self, key: &str)
        ensures
            final(self).contents() == old(self).contents().remove(key@),
    ;
}

/// A store held in memory, listing its values in the order their keys were
/// first set.
pub struct MemStore<T: Record> {
    entries: Vec<(String, T)>,
}

/// The keys of a list of entries.
pub open spec fn entry_keys<T>(e: Seq<(String, T)>) -> Seq<Seq<char>> {
    Seq::new(e.len(), |i: int| e[i].0@)
}

/// In a list without duplicates, the position of an element is where it stands.
pub proof fn lemma_index_of_unique(s: Seq<Seq<char>>, i: int)
    requires
        s.no_duplicates(),
        0 <= i < s.len(),
    ensures
        s.index_of(s[i]) == i,
{
    assert(0 <= i < s.len() && s[i] == s[i]);
}

/// The map that results from setting each pair in turn.
pub open spec fn insert_all<V>(m: Map<Seq<char>, V>, items: Seq<(Seq<char>, V)>) -> Map<
    Seq<char>,
    V,
>
    decreases items.len(),
{
    if items.len() == 0 {
        m
    } else {
        insert_all(m.insert(items[0].0, items[0].1), items.drop_first())
    }
}

/// The models of a list of key-value pairs.
pub open spec fn pair_models<T: DeepView>(items: Seq<(&str, T)>) -> Seq<(Seq<char>, T::V)> {
    Seq::new(items.len(), |i: int| (items[i].0@, items[i].1.deep_view()))
}

impl<T: Record> MemStore<T> {
    #[verifier::type_invariant]
    spec fn well_formed(&self) -> bool {
        entry_keys(self.entries@).no_duplicates()
    }

    /// An empty store.
    pub fn new() -> (r: Self)
        ensures
            r.contents() == Map::<Seq<char>, T::V>::empty(),
            r.order() == Seq::<Seq<char>>::empty(),
    {
        let r = MemStore { entries: Vec::new() };
        assert(r.contents() =~= Map::<Seq<char>, T::V>::empty());
        assert(r.order() =~= Seq::<Seq<char>>::empty());
        r
    }

    /// Sets each pair in turn.
    pub fn bulk_insert(&mut self, items: Vec<(&str, T)>)
        ensures
            final(self).contents() == insert_all(old(self).contents(), pair_models(items@)),
    {
        let ghost all = pair_models(items@);
        let mut items = items;
        while items.len() > 0
            invariant
                insert_all(self.contents(), pair_models(items@)) == insert_all(
                    old(self).contents(),
                    all,
                ),
            decreases items@.len(),
        {
            let ghost before = pair_models(items@);
            let (key, value) = items.remove(0);
            assert(pair_models(items@) =~= before.drop_first());
            self.set(key, value);
        }
        assert(pair_models(items@) =~= Seq::<(Seq<char>, T::V)>::empty());
    }

    /// The keys of the store, in enumeration order.
    pub fn keys(&self) -> (r: Vec<String>)
        ensures
            views(r@) == self.order(),
    {
        let mut r: Vec<String> = Vec::new();
        let mut i: usize = 0;
        while i < self.entries.len()
            invariant
                0 <= i <= self.entries@.len(),
                r@.len() == i,
                forall|j: int| 0 <= j < i ==> r@[j]@ == self.entries@[j].0@,
            decreases self.entries@.len() - i,
        {
            r.push(self.entries[i].0.clone());
            i = i + 1;
        }
        assert(views(r@) =~= entry_keys(self.entries@));
        r
    }

    fn find(&self, key: &str) -> (r: Option<usize>)
        ensures
            match r {
                Some(i) => i < self.entries@.len() && self.entries@[i as int].0@ == key@,
                None => !entry_keys(self.entries@).contains(key@),
            },
    {
        let mut i: usize = 0;
        while i < self.entries.len()
            invariant
                0 <= i <= self.entries@.len(),
                forall|j: int| 0 <= j < i ==> self.entries@[j].0@ != key@,
            decreases self.entries@.len() - i,
        {
            if str_eq(self.entries[i].0.as_str(), key) {
                return Some(i);
            }
            i = i + 1;
        }
        None
    }
}

impl<T: Record> Store<T> for MemStore<T> {
    closed spec fn contents(&self) -> Map<Seq<char>, T::V> {
        Map::new(
            |k: Seq<char>| entry_keys(self.entries@).contains(k),
            |k: Seq<char>| self.entries@[entry_keys(self.entries@).index_of(k)].1.deep_view(),
        )
    }

    closed spec fn order(&self) -> Seq<Seq<char>> {
        entry_keys(self.entries@)
    }

    fn get_all(&self) -> (r: Vec<T>) {
        proof {
            use_type_invariant(self);
        }
        let mut r: Vec<T> = Vec::new();
        let mut i: usize = 0;
        while i < self.entries.len()
            invariant
                0 <= i <= self.entries@.len(),
                r@.len() == i,
                entry_keys(self.entries@).no_duplicates(),
                forall|j: int| 0 <= j < i ==> r@[j].deep_view() == self.entries@[j].1.deep_view(),
            decreases self.entries@.len() - i,
        {
            r.push(self.entries[i].1.duplicate());
            i = i + 1;
        }
        proof {
            let ks = entry_keys(self.entries@);
            assert forall|j: int| 0 <= j < ks.len() implies self.contents()[ks[j]]
                == self.entries@[j].1.deep_view() by {
                lemma_index_of_unique(ks, j);
            }
            assert(r.deep_view() =~= ks.map_values(|k: Seq<char>| self.contents()[k]));
            assert(ks.to_set() =~= self.contents().dom());
        }
        r
    }

    fn get(&self, key: &str) -> (r: Option<T>) {
        proof {
            use_type_invariant(self);
        }
        match self.find(key) {
            Some(i) => {
                proof {
                    lemma_index_of_unique(entry_keys(self.entries@), i as int);
                }
                Some(self.entries[i].1.duplicate())
            },
            None => None,
        }
    }

    fn set(&mut self, key: &str, value: T) {
        proof {
            use_type_invariant(&*self);
        }
        let ghost old_keys = entry_keys(self.entries@);
        let ghost vm = value.deep_view();
        let found = self.find(key);
        let ghost pos: int = match found {
            Some(i) => i as int,
            None => old_keys.len() as int,
        };
        let mut entries: Vec<(String, T)> = Vec::new();
        std::mem::swap(&mut entries, &mut self.entries);
        match found {
            Some(i) => {
                entries.set(i, (key.to_owned(), value));
                assert(entry_keys(entries@) =~= old_keys);
                assert(entry_keys(entries@)[i as int] == key@);
            },
            None => {
                entries.push((key.to_owned(), value));
                assert(entry_keys(entries@) =~= old_keys.push(key@));
            },
        }
        self.entries = entries;
        proof {
            let ks = entry_keys(self.entries@);
            let expected = old(self).contents().insert(key@, vm);
            assert forall|k: Seq<char>| #[trigger] self.contents().contains_key(k) implies expected.contains_key(k)
                && self.contents()[k] == expected[k] by {
                let j = choose|j: int| 0 <= j < ks.len() && ks[j] == k;
                lemma_index_of_unique(ks, j);
                if k != key@ {
                    assert(j < old_keys.len() && old_keys[j] == k);
                    lemma_index_of_unique(old_keys, j);
                } else {
                    assert(j == pos);
                }
            }
            assert forall|k: Seq<char>| #[trigger] expected.contains_key(k) implies self.contents().contains_key(k) by {
                if k != key@ {
                    let j = choose|j: int| 0 <= j < old_keys.len() && old_keys[j] == k;
                    assert(ks[j] == k);
                } else {
                    assert(ks[pos] == k);
                }
            }
            assert(self.contents() =~= expected);
        }
    }

    fn rm(&mut self, key: &str) {
        proof {
            use_type_invariant(&*self);
        }
        let ghost old_keys = entry_keys(self.entries@);
        match self.find(key) {
            Some(i) => {
                let mut entries: Vec<(String, T)> = Vec::new();
                std::mem::swap(&mut entries, &mut self.entries);
                assert(old_keys[i as int] == key@);
                entries.remove(i);
                assert(entry_keys(entries@) =~= old_keys.remove(i as int));
                self.entries = entries;
                proof {
                    let ks = entry_keys(self.entries@);
                    let expected = old(self).contents().remove(key@);
                    assert forall|k: Seq<char>| #[trigger] self.contents().contains_key(k) implies expected.contains_key(k)
                        && self.contents()[k] == expected[k] by {
                        let j = choose|j: int| 0 <= j < ks.len() && ks[j] == k;
                        lemma_index_of_unique(ks, j);
                        let oj = if j < i { j } else { j + 1 };
                        assert(old_keys[oj] == k);
                        lemma_index_of_unique(old_keys, oj);
                        assert(k != key@);
                    }
                    assert forall|k: Seq<char>| #[trigger] expected.contains_key(k) implies self.contents().contains_key(k) by {
                        let oj = choose|j: int| 0 <= j < old_keys.len() && old_keys[j] == k;
                        assert(oj != i);
                        let j = if oj < i { oj } else { oj - 1 };
                        assert(ks[j] == k);
                    }
                    assert(self.contents() =~= expected);
                }
            },
            None => {
                assert(self.contents() =~= old(self).contents().remove(key@));
            },
        }
    }
}

} // verus!
