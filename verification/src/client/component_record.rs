//! Which components an entity has, as the client knows them.

use vstd::prelude::*;

verus! {

/// One component of an entity: its local key and the number of its kind.
#[derive(Clone, Copy, Debug, PartialEq, Eq, Structural)]
pub struct ComponentEntry {
    pub key: u16,
    pub kind: u16,
}

/// The keys of `entries`, in order.
pub open spec fn spec_keys(entries: Seq<ComponentEntry>) -> Seq<u16> {
    entries.map_values(|entry: ComponentEntry| entry.key)
}

/// Whether one of `entries` has the key `key`.
pub open spec fn spec_has_key(entries: Seq<ComponentEntry>, key: u16) -> bool {
    exists|i: int| 0 <= i < entries.len() && (#[trigger] entries[i]).key == key
}

/// `entries` without those of key `key`.
pub open spec fn spec_without_key(entries: Seq<ComponentEntry>, key: u16) -> Seq<ComponentEntry> {
    entries.filter(|entry: ComponentEntry| entry.key != key)
}

/// The key of the first of `entries` that is of kind `kind`.
pub open spec fn spec_key_of_kind(entries: Seq<ComponentEntry>, kind: u16) -> Option<u16>
    decreases entries.len(),
{
    if entries.len() == 0 {
        None
    } else if entries[0].kind == kind {
        Some(entries[0].key)
    } else {
        spec_key_of_kind(entries.skip(1), kind)
    }
}

/// No two of `entries` have the same key.
pub open spec fn spec_distinct_keys(entries: Seq<ComponentEntry>) -> bool {
    forall|i: int, j: int|
        0 <= i < j < entries.len() ==> (#[trigger] entries[i]).key != (#[trigger] entries[j]).key
}

/// Removing a key keeps the other entries, in order, and keeps keys distinct.
pub proof fn lemma_without_key(entries: Seq<ComponentEntry>, key: u16)
    ensures
        !spec_has_key(spec_without_key(entries, key), key),
        forall|other: u16|
            other != key ==> (spec_has_key(spec_without_key(entries, key), other)
                <==> spec_has_key(entries, other)),
        spec_distinct_keys(entries) ==> spec_distinct_keys(spec_without_key(entries, key)),
        !spec_has_key(entries, key) ==> spec_without_key(entries, key) == entries,
    decreases entries.len(),
{
    reveal(Seq::filter);
    let pred = |entry: ComponentEntry| entry.key != key;
    let out = spec_without_key(entries, key);
    if entries.len() > 0 {
        let front = entries.drop_last();
        let last = entries.last();
        lemma_without_key(front, key);
        let sub = spec_without_key(front, key);
        assert(out == if pred(last) {
            sub.push(last)
        } else {
            sub
        });
        if spec_has_key(out, key) {
            let i = choose|i: int| 0 <= i < out.len() && (#[trigger] out[i]).key == key;
            if i < sub.len() {
                assert(sub[i].key == key);
            }
        }
        assert forall|other: u16| other != key implies (spec_has_key(out, other)
            <==> spec_has_key(entries, other)) by {
            if spec_has_key(out, other) {
                let i = choose|i: int| 0 <= i < out.len() && (#[trigger] out[i]).key == other;
                if i < sub.len() {
                    assert(sub[i].key == other);
                    assert(spec_has_key(front, other));
                    let j = choose|j: int|
                        0 <= j < front.len() && (#[trigger] front[j]).key == other;
                    assert(entries[j].key == other);
                } else {
                    assert(entries[entries.len() - 1].key == other);
                }
            }
            if spec_has_key(entries, other) {
                let i = choose|i: int|
                    0 <= i < entries.len() && (#[trigger] entries[i]).key == other;
                if i < front.len() {
                    assert(front[i].key == other);
                    assert(spec_has_key(front, other));
                    assert(spec_has_key(sub, other));
                    let j = choose|j: int| 0 <= j < sub.len() && (#[trigger] sub[j]).key == other;
                    assert(out[j].key == other);
                } else {
                    assert(out[out.len() - 1].key == other);
                }
            }
        }
        if spec_distinct_keys(entries) {
            assert forall|i: int, j: int| 0 <= i < j < front.len() implies (
            #[trigger] front[i]).key != (#[trigger] front[j]).key by {
                assert(entries[i].key != entries[j].key);
            }
            assert forall|i: int, j: int| 0 <= i < j < out.len() implies (#[trigger] out[i]).key
                != (#[trigger] out[j]).key by {
                if j == sub.len() {
                    assert(sub[i].key == out[i].key);
                    assert(spec_has_key(sub, out[i].key));
                    if out[i].key == last.key {
                        assert(spec_has_key(front, last.key));
                        let k = choose|k: int|
                            0 <= k < front.len() && (#[trigger] front[k]).key == last.key;
                        assert(entries[k].key != entries[entries.len() - 1].key);
                    }
                } else {
                    assert(sub[i].key != sub[j].key);
                }
            }
        }
        if !spec_has_key(entries, key) {
            assert(!spec_has_key(front, key)) by {
                if spec_has_key(front, key) {
                    let k = choose|k: int| 0 <= k < front.len() && (#[trigger] front[k]).key == key;
                    assert(entries[k].key == key);
                }
            }
            assert(entries[entries.len() - 1].key != key);
            assert(out =~= entries);
        }
    } else {
        assert(out =~= entries);
    }
}

/// The components of one entity, in the order in which they were added.
pub struct ComponentRecord {
    entries: Vec<ComponentEntry>,
}

impl ComponentRecord {
    /// What this value is to the contracts.
    pub closed spec fn view(&self) -> Seq<ComponentEntry> {
        self.entries@
    }

    /// A record without components.
    pub fn new() -> (record: Self)
        ensures
            record@ == Seq::<ComponentEntry>::empty(),
    {
        ComponentRecord { entries: Vec::new() }
    }

    /// How many components the record lists.
    pub fn len(&self) -> (n: usize)
        ensures
            n == self@.len(),
    {
        self.entries.len()
    }

    /// The entry at place `index`.
    pub fn entry(&self, index: usize) -> (entry: ComponentEntry)
        requires
            index < self@.len(),
        ensures
            entry == self@[index as int],
    {
        self.entries[index]
    }

    /// Whether the record lists a component under `key`.
    pub fn has_key(&self, key: u16) -> (found: bool)
        ensures
            found == spec_has_key(self@, key),
    {
        let mut i: usize = 0;
        while i < self.entries.len()
            invariant
                i <= self.entries@.len(),
                forall|j: int| 0 <= j < i ==> (#[trigger] self.entries@[j]).key != key,
            decreases self.entries@.len() - i,
        {
            if self.entries[i].key == key {
                return true;
            }
            i = i + 1;
        }
        false
    }

    /// Adds a component at the end.
    pub fn insert_component(&mut self, key: u16, kind: u16)
        ensures
            final(self)@ == old(self)@.push(ComponentEntry { key, kind }),
    {
        self.entries.push(ComponentEntry { key, kind });
    }

    /// Takes the components with key `key` out of the record.
    pub fn remove_component(&mut self, key: u16)
        ensures
            final(self)@ == spec_without_key(old(self)@, key),
    {
        let mut kept: Vec<ComponentEntry> = Vec::new();
        let mut i: usize = 0;
        while i < self.entries.len()
            invariant
                i <= self.entries@.len(),
                kept@ == spec_without_key(self.entries@.take(i as int), key),
            decreases self.entries@.len() - i,
        {
            let entry = self.entries[i];
            proof {
                reveal(Seq::filter);
                assert(self.entries@.take(i + 1).drop_last() =~= self.entries@.take(i as int));
            }
            if entry.key != key {
                kept.push(entry);
            }
            i = i + 1;
        }
        assert(self.entries@.take(self.entries@.len() as int) =~= self.entries@);
        self.entries = kept;
    }

    /// The keys of the components, in order.
    pub fn get_component_keys(&self) -> (keys: Vec<u16>)
        ensures
            keys@ == spec_keys(self@),
    {
        let mut keys: Vec<u16> = Vec::new();
        let mut i: usize = 0;
        while i < self.entries.len()
            invariant
                i <= self.entries@.len(),
                keys@ == spec_keys(self.entries@.take(i as int)),
            decreases self.entries@.len() - i,
        {
            keys.push(self.entries[i].key);
            i = i + 1;
            assert(keys@ =~= spec_keys(self.entries@.take(i as int)));
        }
        assert(self.entries@.take(self.entries@.len() as int) =~= self.entries@);
        keys
    }

    /// The key of the component of kind `kind`; of the first, if there are
    /// several.
    pub fn get_key_from_type(&self, kind: u16) -> (key: Option<u16>)
        ensures
            key == spec_key_of_kind(self@, kind),
    {
        let mut i: usize = 0;
        assert(self.entries@.skip(0) =~= self.entries@);
        while i < self.entries.len()
            invariant
                i <= self.entries@.len(),
                spec_key_of_kind(self.entries@, kind) == spec_key_of_kind(
                    self.entries@.skip(i as int),
                    kind,
                ),
            decreases self.entries@.len() - i,
        {
            assert(self.entries@.skip(i as int)[0] == self.entries@[i as int]);
            assert(self.entries@.skip(i as int).skip(1) =~= self.entries@.skip(i + 1));
            if self.entries[i].kind == kind {
                return Some(self.entries[i].key);
            }
            i = i + 1;
        }
        None
    }
}

} // verus!
