//! A map with text keys that keeps the order in which keys first came.
use vstd::prelude::*;
use crate::text::same;

verus! {

/// A map from text to values.
pub struct TextMap<V> {
    entries: Vec<(String, V)>,
}

impl<V> View for TextMap<V> {
    type V = Map<Seq<char>, V>;

    closed spec fn view(&self) -> Map<Seq<char>, V> {
        Map::new(
            |k: Seq<char>| exists|i: int| holds(self.entries@, i, k),
            |k: Seq<char>| self.entries@[choose|i: int| holds(self.entries@, i, k)].1,
        )
    }
}

spec fn holds<V>(entries: Seq<(String, V)>, i: int, k: Seq<char>) -> bool {
    0 <= i < entries.len() && entries[i].0@ == k
}

impl<V> TextMap<V> {
    /// No key stands twice.
    pub closed spec fn wf(&self) -> bool {
        forall|i: int, j: int|
            0 <= i < j < self.entries@.len() ==> (#[trigger] self.entries@[i]).0@ != (
            #[trigger] self.entries@[j]).0@
    }

    /// The keys, in the order in which they first came.
    pub closed spec fn keys(&self) -> Seq<Seq<char>> {
        self.entries@.map_values(|e: (String, V)| e.0@)
    }

    pub proof fn lemma_keys(&self)
        requires
            self.wf(),
        ensures
            self.keys().no_duplicates(),
            forall|k: Seq<char>| #[trigger] self@.contains_key(k) <==> self.keys().contains(k),
    {
        let s = self.entries@;
        assert forall|k: Seq<char>| #[trigger] self@.contains_key(k) <==> self.keys().contains(k) by {
            if self@.contains_key(k) {
                let i = choose|i: int| holds(s, i, k);
                assert(self.keys()[i] == k);
            }
            if self.keys().contains(k) {
                let i = choose|i: int| 0 <= i < self.keys().len() && self.keys()[i] == k;
                assert(holds(s, i, k));
            }
        }
    }

    proof fn lemma_lookup(&self, i: int)
        requires
            self.wf(),
            0 <= i < self.entries@.len(),
        ensures
            self@.contains_key(self.entries@[i].0@),
            self@[self.entries@[i].0@] == self.entries@[i].1,
    {
        let s = self.entries@;
        let k = s[i].0@;
        assert(holds(s, i, k));
        let j = choose|j: int| holds(s, j, k);
        assert(j == i);
    }

    /// An empty map.
    pub fn new() -> (m: Self)
        ensures
            m.wf(),
            m@ == Map::<Seq<char>, V>::empty(),
            m.keys() == Seq::<Seq<char>>::empty(),
    {
        let m = TextMap { entries: Vec::new() };
        assert(m@ =~= Map::<Seq<char>, V>::empty());
        assert(m.keys() =~= Seq::<Seq<char>>::empty());
        m
    }

    pub fn len(&self) -> (n: usize)
        ensures
            n == self.keys().len(),
    {
        self.entries.len()
    }

    /// The `i`-th key.
    pub fn key_at(&self, i: usize) -> (k: &str)
        requires
            i < self.keys().len(),
        ensures
            k@ == self.keys()[i as int],
    {
        self.entries[i].0.as_str()
    }

    /// The value of the `i`-th key.
    pub fn value_at(&self, i: usize) -> (v: &V)
        requires
            self.wf(),
            i < self.keys().len(),
        ensures
            self@.contains_key(self.keys()[i as int]),
            *v == self@[self.keys()[i as int]],
    {
        proof {
            self.lemma_lookup(i as int);
        }
        &self.entries[i].1
    }

    fn place(&self, key: &str) -> (r: Option<usize>)
        requires
            self.wf(),
        ensures
            match r {
                Some(i) => i < self.entries@.len() && self.entries@[i as int].0@ == key@
                    && self@.contains_key(key@) && self@[key@] == self.entries@[i as int].1,
                None => !self@.contains_key(key@) && forall|i: int|
                    0 <= i < self.entries@.len() ==> (#[trigger] self.entries@[i]).0@ != key@,
            },
    {
        let mut i: usize = 0;
        while i < self.entries.len()
            invariant
                self.wf(),
                i <= self.entries.len(),
                forall|j: int| 0 <= j < i ==> (#[trigger] self.entries@[j]).0@ != key@,
            decreases self.entries.len() - i,
        {
            if same(self.entries[i].0.as_str(), key) {
                proof {
                    self.lemma_lookup(i as int);
                }
                return Some(i);
            }
            i += 1;
        }
        None
    }

    /// The value of a key.
    pub fn get(&self, key: &str) -> (r: Option<&V>)
        requires
            self.wf(),
        ensures
            match r {
                Some(v) => self@.contains_key(key@) && *v == self@[key@],
                None => !self@.contains_key(key@),
            },
    {
        match self.place(key) {
            Some(i) => Some(&self.entries[i].1),
            None => None,
        }
    }

    /// Sets the value of a key. A key that is new comes last.
    pub fn insert(&mut self, key: String, value: V)
        requires
            old(self).wf(),
        ensures
            final(self).wf(),
            final(self)@ == old(self)@.insert(key@, value),
            final(self).keys() == (if old(self)@.contains_key(key@) {
                old(self).keys()
            } else {
                old(self).keys().push(key@)
            }),
    {
        let ghost before = *self;
        match self.place(key.as_str()) {
            Some(i) => {
                let ghost s = before.entries@;
                self.entries[i].1 = value;
                proof {
                    let t = self.entries@;
                    assert(t.len() == s.len());
                    assert forall|j: int| 0 <= j < t.len() implies (#[trigger] t[j]).0@ == s[j].0@ by {}
                    assert(self.wf());
                    assert(self.keys() =~= before.keys());
                    lemma_same_map(*self, before, key@, value, i as int);
                }
            },
            None => {
                self.entries.push((key, value));
                proof {
                    assert(self.keys() =~= before.keys().push(key@));
                    assert(self.wf());
                    lemma_same_map(*self, before, key@, value, before.entries@.len() as int);
                }
            },
        }
    }
}

proof fn lemma_same_map<V>(new: TextMap<V>, old_map: TextMap<V>, k: Seq<char>, v: V, i: int)
    requires
        new.wf(),
        old_map.wf(),
        0 <= i < new.entries@.len(),
        new.entries@[i].0@ == k,
        new.entries@[i].1 == v,
        old_map.entries@.len() <= new.entries@.len() <= old_map.entries@.len() + 1,
        new.entries@.len() == old_map.entries@.len() + 1 ==> i == old_map.entries@.len(),
        forall|j: int|
            0 <= j < old_map.entries@.len() && j != i ==> #[trigger] new.entries@[j] == old_map.entries@[j],
        i < old_map.entries@.len() ==> old_map.entries@[i].0@ == k,
    ensures
        new@ == old_map@.insert(k, v),
{
    let s = old_map.entries@;
    let t = new.entries@;
    assert forall|x: Seq<char>|
        #[trigger] new@.contains_key(x) <==> old_map@.insert(k, v).contains_key(x) by {
        if new@.contains_key(x) {
            let j = choose|j: int| holds(t, j, x);
            if j != i {
                assert(holds(s, j, x));
            }
        }
        if old_map@.insert(k, v).contains_key(x) {
            if x == k {
                assert(holds(t, i, x));
            } else {
                let j = choose|j: int| holds(s, j, x);
                assert(holds(t, j, x));
            }
        }
    }
    assert forall|x: Seq<char>| #[trigger] new@.contains_key(x) implies new@[x] == old_map@.insert(k, v)[x] by {
        let j = choose|j: int| holds(t, j, x);
        new.lemma_lookup(j);
        if x != k {
            assert(j != i);
            old_map.lemma_lookup(j);
        }
    }
    assert(new@ =~= old_map@.insert(k, v));
}

} // verus!
