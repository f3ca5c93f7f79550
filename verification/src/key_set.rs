//! A set of keys that remembers the order in which they came.

use vstd::prelude::*;

verus! {

/// The place of `key` in `keys`, or their number if it is not there.
pub open spec fn spec_index_of(keys: Seq<u64>, key: u64) -> int
    decreases keys.len(),
{
    if keys.len() == 0 {
        0
    } else if keys[0] == key {
        0
    } else {
        1 + spec_index_of(keys.skip(1), key)
    }
}

/// Whether `key` is one of `keys`.
pub open spec fn spec_has(keys: Seq<u64>, key: u64) -> bool {
    spec_index_of(keys, key) < keys.len()
}

/// `keys` with `key` at the end, unless it is there already.
pub open spec fn spec_with(keys: Seq<u64>, key: u64) -> Seq<u64> {
    if spec_has(keys, key) {
        keys
    } else {
        keys.push(key)
    }
}

/// `keys` without `key`.
pub open spec fn spec_without(keys: Seq<u64>, key: u64) -> Seq<u64> {
    if spec_has(keys, key) {
        keys.remove(spec_index_of(keys, key))
    } else {
        keys
    }
}

/// Whether `key` is one of `keys[from..]`.
pub open spec fn spec_among(keys: Seq<u64>, from: nat, key: u64) -> bool {
    exists|j: int| from <= j < keys.len() && #[trigger] keys[j] == key
}

/// A key is among the keys from some place on if it stands at that place or
/// is among those after it.
pub proof fn lemma_among_step(keys: Seq<u64>, from: nat, key: u64)
    requires
        from < keys.len(),
    ensures
        spec_among(keys, from, key) <==> (keys[from as int] == key || spec_among(
            keys,
            from + 1,
            key,
        )),
{
    if spec_among(keys, from, key) {
        let j = choose|j: int| from <= j < keys.len() && #[trigger] keys[j] == key;
        if j != from {
            assert(from + 1 <= j < keys.len() && keys[j] == key);
        }
    }
    if spec_among(keys, from + 1, key) {
        let j = choose|j: int| from + 1 <= j < keys.len() && #[trigger] keys[j] == key;
        assert(from <= j < keys.len() && keys[j] == key);
    }
    if keys[from as int] == key {
        assert(from <= from < keys.len() && keys[from as int] == key);
    }
}

/// No key occurs twice.
pub open spec fn spec_distinct(keys: Seq<u64>) -> bool {
    forall|i: int, j: int| 0 <= i < j < keys.len() ==> keys[i] != keys[j]
}

/// What is found is there, and is the first; what is there is found.
pub proof fn lemma_index_of(keys: Seq<u64>, key: u64)
    ensures
        0 <= spec_index_of(keys, key) <= keys.len(),
        spec_has(keys, key) ==> keys[spec_index_of(keys, key)] == key,
        forall|i: int| 0 <= i < spec_index_of(keys, key) ==> keys[i] != key,
        spec_has(keys, key) <==> keys.contains(key),
    decreases keys.len(),
{
    if keys.len() > 0 {
        lemma_index_of(keys.skip(1), key);
        assert forall|i: int| 0 <= i < spec_index_of(keys, key) implies keys[i] != key by {
            if i > 0 {
                assert(keys.skip(1)[i - 1] == keys[i]);
            }
        }
        if keys.contains(key) && keys[0] != key {
            let i = choose|i: int| 0 <= i < keys.len() && keys[i] == key;
            assert(keys.skip(1)[i - 1] == key);
        }
        if spec_has(keys, key) {
            assert(keys[spec_index_of(keys, key)] == key);
        }
    }
}

/// Adding and removing keep the keys distinct and change the membership of
/// the one key only.
pub proof fn lemma_with_without(keys: Seq<u64>, key: u64, other: u64)
    requires
        spec_distinct(keys),
    ensures
        spec_distinct(spec_with(keys, key)),
        spec_distinct(spec_without(keys, key)),
        spec_has(spec_with(keys, key), other) <==> (other == key || spec_has(keys, other)),
        spec_has(spec_without(keys, key), other) <==> (other != key && spec_has(keys, other)),
{
    lemma_index_of(keys, key);
    lemma_index_of(keys, other);
    let with = spec_with(keys, key);
    let without = spec_without(keys, key);
    lemma_index_of(with, other);
    lemma_index_of(without, other);
    if !spec_has(keys, key) {
        if with.contains(other) {
            let i = choose|i: int| 0 <= i < with.len() && with[i] == other;
            if i < keys.len() {
                assert(keys[i] == other);
            }
        }
        if other == key {
            assert(with[keys.len() as int] == key);
        }
        if keys.contains(other) {
            let i = choose|i: int| 0 <= i < keys.len() && keys[i] == other;
            assert(with[i] == other);
        }
    } else {
        let at = spec_index_of(keys, key);
        if without.contains(other) {
            let i = choose|i: int| 0 <= i < without.len() && without[i] == other;
            if i < at {
                assert(keys[i] == other);
            } else {
                assert(keys[i + 1] == other);
            }
        }
        if keys.contains(other) && other != key {
            let i = choose|i: int| 0 <= i < keys.len() && keys[i] == other;
            if i < at {
                assert(without[i] == other);
            } else {
                assert(without[i - 1] == other);
            }
        }
    }
}

/// Distinct keys, in the order in which they were added.
pub struct KeySet {
    keys: Vec<u64>,
}

impl KeySet {
    /// What this value is to the contracts.
    pub closed spec fn view(&self) -> Seq<u64> {
        self.keys@
    }

    /// No key occurs twice.
    pub open spec fn wf(&self) -> bool {
        spec_distinct(self@)
    }

    /// A set without keys.
    pub fn new() -> (set: Self)
        ensures
            set.wf(),
            set@ == Seq::<u64>::empty(),
    {
        KeySet { keys: Vec::new() }
    }

    /// How many keys there are.
    pub fn len(&self) -> (n: usize)
        ensures
            n == self@.len(),
    {
        self.keys.len()
    }

    /// The key at place `index`.
    pub fn get(&self, index: usize) -> (key: u64)
        requires
            index < self@.len(),
        ensures
            key == self@[index as int],
    {
        self.keys[index]
    }

    fn index_of(&self, key: u64) -> (i: usize)
        ensures
            i == spec_index_of(self@, key),
            i <= self@.len(),
    {
        let mut i: usize = 0;
        assert(self.keys@.skip(0) =~= self.keys@);
        while i < self.keys.len()
            invariant
                i <= self.keys@.len(),
                spec_index_of(self.keys@, key) == i + spec_index_of(self.keys@.skip(i as int), key),
            decreases self.keys@.len() - i,
        {
            assert(self.keys@.skip(i as int)[0] == self.keys@[i as int]);
            assert(self.keys@.skip(i as int).skip(1) =~= self.keys@.skip(i + 1));
            if self.keys[i] == key {
                return i;
            }
            i = i + 1;
        }
        i
    }

    /// Whether `key` is in the set.
    pub fn contains(&self, key: u64) -> (found: bool)
        ensures
            found == spec_has(self@, key),
    {
        self.index_of(key) < self.keys.len()
    }

    /// Adds `key`. Returns whether it was new.
    pub fn insert(&mut self, key: u64) -> (added: bool)
        ensures
            old(self).wf() ==> final(self).wf(),
            final(self)@ == spec_with(old(self)@, key),
            added == !spec_has(old(self)@, key),
    {
        proof {
            if self.wf() {
                lemma_with_without(self@, key, key);
            }
        }
        if self.index_of(key) < self.keys.len() {
            false
        } else {
            self.keys.push(key);
            true
        }
    }

    /// Adds a key that is not in the set, at the end.
    pub fn push_new(&mut self, key: u64)
        ensures
            final(self)@ == old(self)@.push(key),
    {
        self.keys.push(key);
    }

    /// Removes `key`. Returns whether it was there.
    pub fn remove(&mut self, key: u64) -> (removed: bool)
        ensures
            old(self).wf() ==> final(self).wf(),
            final(self)@ == spec_without(old(self)@, key),
            removed == spec_has(old(self)@, key),
    {
        proof {
            if self.wf() {
                lemma_with_without(self@, key, key);
            }
        }
        let i = self.index_of(key);
        if i < self.keys.len() {
            self.keys.remove(i);
            true
        } else {
            false
        }
    }

    /// The keys, in order.
    pub fn to_vec(&self) -> (keys: Vec<u64>)
        ensures
            keys@ == self@,
    {
        let mut keys: Vec<u64> = Vec::new();
        let mut i: usize = 0;
        while i < self.keys.len()
            invariant
                i <= self.keys@.len(),
                keys@ == self.keys@.take(i as int),
            decreases self.keys@.len() - i,
        {
            keys.push(self.keys[i]);
            i = i + 1;
            assert(keys@ =~= self.keys@.take(i as int));
        }
        assert(self.keys@.take(self.keys@.len() as int) =~= self.keys@);
        keys
    }
}

} // verus!
