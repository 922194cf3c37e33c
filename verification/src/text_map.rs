//! A small map with texts as keys.
use crate::text::{same_text, texts};
use vstd::prelude::*;

verus! {

/// A map with texts as keys. It is searched from end to end, and fits where
/// few entries are to be held.
#[derive(Debug)]
pub struct TextMap<T> {
    entries: Vec<(String, T)>,
}

/// The entry at `i` is that of `key`.
spec fn is_entry<T>(entries: Seq<(String, T)>, key: Seq<char>, i: int) -> bool {
    0 <= i < entries.len() && entries[i].0@ == key
}

/// No two entries have the same key.
spec fn distinct<T>(entries: Seq<(String, T)>) -> bool {
    forall|i: int, j: int|
        0 <= i < j < entries.len() ==> (#[trigger] entries[i]).0@ != (#[trigger] entries[j]).0@
}

impl<T> View for TextMap<T> {
    type V = Map<Seq<char>, T>;

    closed spec fn view(&self) -> Map<Seq<char>, T> {
        Map::new(
            |key: Seq<char>| exists|i: int| is_entry(self.entries@, key, i),
            |key: Seq<char>| self.entries@[choose|i: int| is_entry(self.entries@, key, i)].1,
        )
    }
}

impl<T> TextMap<T> {
    /// Each key has one entry.
    pub closed spec fn wf(&self) -> bool {
        distinct(self.entries@)
    }

    proof fn lemma_entry(&self, i: int)
        requires
            self.wf(),
            0 <= i < self.entries@.len(),
        ensures
            self@.contains_key(self.entries@[i].0@),
            self@[self.entries@[i].0@] == self.entries@[i].1,
    {
        let key = self.entries@[i].0@;
        assert(is_entry(self.entries@, key, i));
        let j = choose|j: int| is_entry(self.entries@, key, j);
        assert(is_entry(self.entries@, key, j));
        assert(i == j);
    }

    /// The map without entries.
    pub fn new() -> (r: TextMap<T>)
        ensures
            r.wf(),
            r@ == Map::<Seq<char>, T>::empty(),
    {
        let r = TextMap { entries: Vec::new() };
        assert(r@ =~= Map::<Seq<char>, T>::empty());
        r
    }

    fn position(&self, key: &str) -> (r: Option<usize>)
        requires
            self.wf(),
        ensures
            match r {
                Some(i) => is_entry(self.entries@, key@, i as int) && self@.contains_key(key@)
                    && self@[key@] == self.entries@[i as int].1,
                None => !self@.contains_key(key@) && forall|i: int|
                    !is_entry(self.entries@, key@, i),
            },
    {
        let mut i: usize = 0;
        while i < self.entries.len()
            invariant
                i <= self.entries@.len(),
                self.wf(),
                forall|j: int| 0 <= j < i ==> !is_entry(self.entries@, key@, j),
            decreases self.entries@.len() - i,
        {
            if same_text(self.entries[i].0.as_str(), key) {
                proof {
                    self.lemma_entry(i as int);
                }
                return Some(i);
            }
            i += 1;
        }
        assert(forall|j: int| !is_entry(self.entries@, key@, j));
        None
    }

    /// The value of `key`.
    pub fn get(&self, key: &str) -> (r: Option<&T>)
        requires
            self.wf(),
        ensures
            match r {
                Some(value) => self@.contains_key(key@) && self@[key@] == *value,
                None => !self@.contains_key(key@),
            },
    {
        match self.position(key) {
            Some(i) => Some(&self.entries[i].1),
            None => None,
        }
    }

    /// Makes `value` the value of `key`.
    pub fn insert(&mut self, key: &str, value: T)
        requires
            old(self).wf(),
        ensures
            final(self).wf(),
            final(self)@ == old(self)@.insert(key@, value),
    {
        let ghost before = *self;
        let ghost mut at: int = 0;
        match self.position(key) {
            Some(i) => {
                self.entries.set(i, (key.to_string(), value));
                proof {
                    at = i as int;
                }
            },
            None => {
                self.entries.push((key.to_string(), value));
                proof {
                    at = before.entries@.len() as int;
                    assert(forall|i: int| !is_entry(before.entries@, key@, i));
                }
            },
        }
        assert(is_entry(self.entries@, key@, at) && self.entries@[at].1 == value);
        assert forall|i: int| 0 <= i < self.entries@.len() && i != at implies self.entries@[i]
            == before.entries@[i] && i < before.entries@.len() && !is_entry(
            before.entries@,
            key@,
            i,
        ) by {
            if at < before.entries@.len() {
                assert(before.entries@[at].0@ == key@);
            }
        }
        assert(self.wf());
        assert forall|k: Seq<char>| #[trigger]
            self@.contains_key(k) <==> before@.insert(key@, value).contains_key(k) by {
            if before@.contains_key(k) {
                let i = choose|i: int| is_entry(before.entries@, k, i);
                assert(is_entry(self.entries@, k, i));
            }
            if self@.contains_key(k) && k != key@ {
                let i = choose|i: int| is_entry(self.entries@, k, i);
                assert(is_entry(before.entries@, k, i));
            }
        }
        assert forall|k: Seq<char>| #[trigger] self@.contains_key(k) implies self@[k]
            == before@.insert(key@, value)[k] by {
            if k == key@ {
                self.lemma_entry(at);
            } else {
                let i = choose|i: int| is_entry(self.entries@, k, i);
                assert(is_entry(self.entries@, k, i));
                self.lemma_entry(i);
                before.lemma_entry(i);
            }
        }
        assert(self@ =~= before@.insert(key@, value));
    }

    /// Takes away the entry of `key`, and returns its value.
    pub fn remove(&mut self, key: &str) -> (r: Option<T>)
        requires
            old(self).wf(),
        ensures
            final(self).wf(),
            final(self)@ == old(self)@.remove(key@),
            match r {
                Some(value) => old(self)@.contains_key(key@) && old(self)@[key@] == value,
                None => !old(self)@.contains_key(key@),
            },
    {
        let ghost before = *self;
        match self.position(key) {
            Some(at) => {
                let (_, value) = self.entries.remove(at);
                let ghost gap = at as int;
                assert(self.entries@ == before.entries@.remove(gap));
                assert(self.wf()) by {
                    assert forall|i: int, j: int| 0 <= i < j < self.entries@.len() implies (
                    #[trigger] self.entries@[i]).0@ != (#[trigger] self.entries@[j]).0@ by {
                        let i0 = if i < gap { i } else { i + 1 };
                        let j0 = if j < gap { j } else { j + 1 };
                        assert(self.entries@[i] == before.entries@[i0]);
                        assert(self.entries@[j] == before.entries@[j0]);
                    }
                }
                assert forall|k: Seq<char>| #[trigger]
                    self@.contains_key(k) <==> before@.remove(key@).contains_key(k) by {
                    if before@.contains_key(k) && k != key@ {
                        let i = choose|i: int| is_entry(before.entries@, k, i);
                        let now = if i < gap { i } else { i - 1 };
                        assert(is_entry(self.entries@, k, now));
                    }
                    if self@.contains_key(k) {
                        let i = choose|i: int| is_entry(self.entries@, k, i);
                        let place = if i < gap { i } else { i + 1 };
                        assert(is_entry(before.entries@, k, place));
                        assert(before.entries@[place].0@ != before.entries@[gap].0@);
                    }
                }
                assert forall|k: Seq<char>| #[trigger] self@.contains_key(k) implies self@[k]
                    == before@.remove(key@)[k] by {
                    let i = choose|i: int| is_entry(self.entries@, k, i);
                    assert(is_entry(self.entries@, k, i));
                    let place = if i < gap { i } else { i + 1 };
                    self.lemma_entry(i);
                    before.lemma_entry(place);
                }
                assert(self@ =~= before@.remove(key@));
                Some(value)
            },
            None => {
                assert(self@ =~= before@.remove(key@));
                None
            },
        }
    }

    /// The keys, each once.
    pub fn keys(&self) -> (r: Vec<String>)
        requires
            self.wf(),
        ensures
            texts(r@).no_duplicates(),
            forall|key: Seq<char>| #[trigger]
                texts(r@).contains(key) <==> self@.contains_key(key),
    {
        let mut keys: Vec<String> = Vec::new();
        let mut i: usize = 0;
        while i < self.entries.len()
            invariant
                i <= self.entries@.len(),
                keys@.len() == i,
                forall|j: int| 0 <= j < i ==> keys@[j]@ == (#[trigger] self.entries@[j]).0@,
            decreases self.entries@.len() - i,
        {
            keys.push(self.entries[i].0.clone());
            i += 1;
        }
        assert(forall|j: int| 0 <= j < keys@.len() ==> texts(keys@)[j] == self.entries@[j].0@);
        assert forall|key: Seq<char>| #[trigger]
            texts(keys@).contains(key) <==> self@.contains_key(key) by {
            if texts(keys@).contains(key) {
                let j = choose|j: int| 0 <= j < texts(keys@).len() && texts(keys@)[j] == key;
                assert(is_entry(self.entries@, key, j));
            }
            if self@.contains_key(key) {
                let j = choose|j: int| is_entry(self.entries@, key, j);
                assert(texts(keys@)[j] == key);
            }
        }
        keys
    }
}

} // verus!
