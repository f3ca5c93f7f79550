//! A ring of slots addressed by a wrapping 16-bit tick.

use vstd::prelude::*;
use crate::wrapping_number::{spec_wrapping_diff, wrapping_diff};

verus! {

/// `tick` lies among the `capacity` newest ticks that end at `head`.
pub open spec fn in_window(tick: u16, head: u16, capacity: nat) -> bool {
    0 <= spec_wrapping_diff(tick, head) < capacity
}

/// The slot that `tick` occupies in a ring of `capacity` slots.
pub open spec fn slot_of(tick: u16, capacity: nat) -> int
    recommends
        capacity > 0,
{
    tick as int % capacity as int
}

/// What the buffer holds once `head` has moved: the entries that are still
/// inside the window.
pub open spec fn spec_retain_window<T>(entries: Map<u16, T>, head: u16, capacity: nat) -> Map<
    u16,
    T,
> {
    entries.restrict(Set::new(|t: u16| in_window(t, head, capacity)))
}

/// The tick that a head stands for: the newest tick that was inserted, and
/// 0 while there is none.
pub open spec fn spec_head_tick(head: Option<u16>) -> u16 {
    match head {
        Some(newest) => newest,
        None => 0,
    }
}

/// Whether a buffer with the given head takes a value for `tick`. A buffer
/// into which nothing was ever inserted takes any tick; afterwards a tick is
/// taken unless it has left the window already.
pub open spec fn spec_accepts(head: Option<u16>, capacity: nat, tick: u16) -> bool {
    match head {
        Some(newest) => spec_wrapping_diff(tick, newest) < capacity,
        None => true,
    }
}

/// The head after `tick` has been inserted: `tick` itself if it is the first
/// or is later than the head, else the head.
pub open spec fn spec_advance(head: Option<u16>, tick: u16) -> u16 {
    match head {
        Some(newest) => if spec_wrapping_diff(tick, newest) < 0 {
            tick
        } else {
            newest
        },
        None => tick,
    }
}

/// The entries after an accepted `insert(tick, value)`: the window has moved
/// to the new head, whatever shared the slot of `tick` has gone, and `tick`
/// maps to `value`.
pub open spec fn spec_insert<T>(
    entries: Map<u16, T>,
    head: Option<u16>,
    capacity: nat,
    tick: u16,
    value: T,
) -> Map<u16, T> {
    spec_retain_window(entries, spec_advance(head, tick), capacity).restrict(
        Set::new(|t: u16| slot_of(t, capacity) != slot_of(tick, capacity)),
    ).insert(tick, value)
}

/// The entries after `remove_until(tick)`: those strictly later than `tick`.
pub open spec fn spec_remove_until<T>(entries: Map<u16, T>, tick: u16) -> Map<u16, T> {
    entries.restrict(Set::new(|t: u16| spec_wrapping_diff(tick, t) > 0))
}

/// The ticks of the window `[head - capacity + 1, head]` that the buffer
/// holds, oldest first.
pub open spec fn spec_ticks_from<T>(entries: Map<u16, T>, head: u16, back: nat) -> Seq<u16>
    decreases back,
{
    if back == 0 {
        Seq::empty()
    } else {
        let tick = ((head as int - (back as int - 1)) % 65536) as u16;
        let rest = spec_ticks_from(entries, head, (back - 1) as nat);
        if entries.contains_key(tick) {
            seq![tick] + rest
        } else {
            rest
        }
    }
}

/// The ticks that the buffer holds, oldest first, or newest first if
/// `reverse`.
pub open spec fn spec_ordered<T>(entries: Map<u16, T>, head: u16, back: nat, reverse: bool) -> Seq<
    u16,
> {
    if reverse {
        spec_ticks_from(entries, head, back).reverse()
    } else {
        spec_ticks_from(entries, head, back)
    }
}

struct Slot<T> {
    tick: u16,
    value: T,
}

/// Values kept under the ticks at which they were stored. A slot answers only
/// for the tick that was last written to it, and only while that tick is one
/// of the `capacity` newest.
pub struct SequenceBuffer<T> {
    head: u16,
    started: bool,
    slots: Vec<Option<Slot<T>>>,
}

impl<T> SequenceBuffer<T> {
    /// The number of slots.
    pub closed spec fn capacity(&self) -> nat {
        self.slots@.len()
    }

    /// The newest tick that was ever inserted; none before the first insert.
    pub closed spec fn newest(&self) -> Option<u16> {
        if self.started {
            Some(self.head)
        } else {
            None
        }
    }

    /// The newest tick that was ever inserted; 0 before the first insert.
    pub open spec fn head(&self) -> u16 {
        spec_head_tick(self.newest())
    }

    /// Every filled slot holds a tick of the window, in the slot of that
    /// tick; and before the first insert no slot is filled.
    pub closed spec fn wf(&self) -> bool {
        &&& self.sized()
        &&& !self.started ==> self.head == 0
        &&& forall|j: int|
            0 <= j < self.slots@.len() && (#[trigger] self.slots@[j]) is Some ==> self.started
                && self.settled(j, self.head)
    }

    /// A buffer into which nothing was ever inserted holds nothing.
    pub proof fn lemma_fresh_empty(&self)
        requires
            self.wf(),
            self.newest() is None,
        ensures
            self@ == Map::<u16, T>::empty(),
    {
        assert forall|t: u16| !self@.contains_key(t) by {
            let j = slot_of(t, self.capacity());
            assert(0 <= j < self.slots@.len());
            if self.slots@[j] is Some {
                assert(self.started);
            }
        }
        assert(self@ =~= Map::<u16, T>::empty());
    }

    closed spec fn sized(&self) -> bool {
        0 < self.slots@.len() <= 65535
    }

    closed spec fn settled(&self, j: int, head: u16) -> bool {
        let tick = self.slots@[j]->0.tick;
        in_window(tick, head, self.capacity()) && slot_of(tick, self.capacity()) == j
    }

    closed spec fn holds(&self, tick: u16) -> bool {
        let slot = self.slots@[slot_of(tick, self.capacity())];
        slot is Some && slot->0.tick == tick
    }

    /// The visible entries, by tick.
    pub closed spec fn view(&self) -> Map<u16, T> {
        Map::new(
            |t: u16| self.holds(t),
            |t: u16| self.slots@[slot_of(t, self.capacity())]->0.value,
        )
    }

    /// Every visible tick lies in the window, and no two share a slot.
    pub proof fn lemma_view_in_window(&self)
        requires
            self.wf(),
        ensures
            forall|t: u16|
                (#[trigger] self@.contains_key(t)) ==> in_window(t, self.head(), self.capacity()),
            forall|t: u16, u: u16|
                self@.contains_key(t) && self@.contains_key(u) && t != u ==> slot_of(
                    t,
                    self.capacity(),
                ) != slot_of(u, self.capacity()),
    {
        assert forall|t: u16| #[trigger] self@.contains_key(t) implies in_window(
            t,
            self.head(),
            self.capacity(),
        ) && slot_of(self.slots@[slot_of(t, self.capacity())]->0.tick, self.capacity())
            == slot_of(t, self.capacity()) by {
            assert(self.settled(slot_of(t, self.capacity()), self.head));
        }
    }

    /// An empty buffer of `size` slots, into which nothing was inserted yet.
    pub fn with_capacity(size: u16) -> (buffer: Self)
        requires
            size > 0,
        ensures
            buffer.wf(),
            buffer.capacity() == size,
            buffer.newest() is None,
            buffer@ == Map::<u16, T>::empty(),
    {
        let mut slots: Vec<Option<Slot<T>>> = Vec::new();
        let mut i: u16 = 0;
        while i < size
            invariant
                i <= size,
                slots@.len() == i,
                forall|j: int| 0 <= j < i ==> slots@[j] is None,
            decreases size - i,
        {
            slots.push(None);
            i = i + 1;
        }
        let buffer = SequenceBuffer { head: 0, started: false, slots };
        assert(buffer@ =~= Map::<u16, T>::empty());
        buffer
    }

    /// The newest tick that was ever inserted; 0 before the first insert.
    pub fn sequence_num(&self) -> (head: u16)
        ensures
            head == self.head(),
    {
        if self.started {
            self.head
        } else {
            0
        }
    }

    /// The newest tick that was ever inserted, if any was.
    pub fn newest_num(&self) -> (newest: Option<u16>)
        ensures
            newest == self.newest(),
    {
        if self.started {
            Some(self.head)
        } else {
            None
        }
    }

    /// The number of slots.
    pub fn len(&self) -> (n: u16)
        requires
            self.wf(),
        ensures
            n == self.capacity(),
    {
        self.slots.len() as u16
    }

    fn index(&self, tick: u16) -> (i: usize)
        requires
            self.sized(),
        ensures
            i == slot_of(tick, self.capacity()),
            i < self.slots@.len(),
    {
        tick as usize % self.slots.len()
    }

    fn within(&self, tick: u16) -> (r: bool)
        requires
            self.sized(),
        ensures
            r == in_window(tick, self.head, self.capacity()),
    {
        let d: i16 = wrapping_diff(tick, self.head);
        d >= 0 && (d as usize) < self.slots.len()
    }

    /// Whether a value is visible under `tick`.
    pub fn contains(&self, tick: u16) -> (r: bool)
        requires
            self.wf(),
        ensures
            r == self@.contains_key(tick),
    {
        let i = self.index(tick);
        match &self.slots[i] {
            Some(entry) => entry.tick == tick,
            None => false,
        }
    }

    /// The value stored under `tick`, if it is still visible.
    pub fn get(&self, tick: u16) -> (r: Option<&T>)
        requires
            self.wf(),
        ensures
            match r {
                Some(v) => self@.contains_key(tick) && *v == self@[tick],
                None => !self@.contains_key(tick),
            },
    {
        let i = self.index(tick);
        match &self.slots[i] {
            Some(entry) => {
                if entry.tick == tick {
                    Some(&entry.value)
                } else {
                    None
                }
            },
            None => None,
        }
    }

    /// Stores `value` under `tick`. The first tick that is inserted becomes
    /// the head, whatever it is; later the head moves forward if `tick` is
    /// newer, and a tick that has already left the window is refused and
    /// nothing changes.
    pub fn insert(&mut self, tick: u16, value: T) -> (accepted: bool)
        requires
            old(self).wf(),
        ensures
            final(self).wf(),
            final(self).capacity() == old(self).capacity(),
            accepted == spec_accepts(old(self).newest(), old(self).capacity(), tick),
            accepted ==> final(self).newest() == Some(spec_advance(old(self).newest(), tick)),
            accepted ==> final(self)@ == spec_insert(
                old(self)@,
                old(self).newest(),
                old(self).capacity(),
                tick,
                value,
            ),
            !accepted ==> final(self).newest() == old(self).newest() && final(self)@ == old(
                self,
            )@,
    {
        let d: i16 = if self.started {
            wrapping_diff(tick, self.head)
        } else {
            0
        };
        if d >= 0 && (d as usize) >= self.slots.len() {
            return false;
        }
        proof {
            if !self.started {
                self.lemma_fresh_empty();
            }
        }
        if !self.started {
            self.head = tick;
            self.started = true;
        } else if d < 0 {
            self.head = tick;
            self.evict();
        }
        let ghost kept = self@;
        let ghost mid = *self;
        assert(kept == spec_retain_window(old(self)@, self.head, old(self).capacity())) by {
            if d >= 0 {
                assert(kept =~= spec_retain_window(old(self)@, self.head, old(self).capacity()));
            }
        }
        let i = self.index(tick);
        self.slots[i] = Some(Slot { tick, value });
        proof {
            let cap = old(self).capacity();
            let expected = spec_insert(old(self)@, old(self).newest(), cap, tick, value);
            assert(in_window(tick, self.head, cap));
            assert forall|t: u16| self@.contains_key(t) == expected.contains_key(t) by {
                if slot_of(t, cap) != slot_of(tick, cap) {
                    assert(self.slots@[slot_of(t, cap)] == mid.slots@[slot_of(t, cap)]);
                    assert(self@.contains_key(t) == kept.contains_key(t));
                }
            }
            assert forall|t: u16| self@.contains_key(t) implies self@[t] == expected[t] by {
                if slot_of(t, cap) != slot_of(tick, cap) {
                    assert(self.slots@[slot_of(t, cap)] == mid.slots@[slot_of(t, cap)]);
                    assert(kept.contains_key(t));
                }
            }
            assert(self@ =~= expected);
            assert forall|j: int|
                0 <= j < self.slots@.len() && self.slots@[j] is Some implies self.settled(
                j,
                self.head,
            ) by {
                if j != i {
                    assert(mid.slots@[j] is Some);
                    assert(mid.settled(j, mid.head));
                }
            }
        }
        true
    }

    /// Empties the slots whose tick has left the window.
    fn evict(&mut self)
        requires
            old(self).sized(),
            old(self).started,
        ensures
            final(self).wf(),
            final(self).started,
            final(self).head == old(self).head,
            final(self).slots@.len() == old(self).slots@.len(),
            forall|t: u16|
                final(self).holds(t) <==> old(self).holds(t) && in_window(
                    t,
                    old(self).head,
                    old(self).capacity(),
                ),
            forall|t: u16|
                final(self).holds(t) ==> final(self).slots@[slot_of(t, old(self).capacity())]
                    == old(self).slots@[slot_of(t, old(self).capacity())],
    {
        let n = self.slots.len();
        let mut i: usize = 0;
        while i < n
            invariant
                i <= n,
                n == self.slots@.len(),
                n == old(self).slots@.len(),
                self.sized(),
                self.started,
                self.head == old(self).head,
                forall|j: int|
                    0 <= j < i ==> #[trigger] self.slots@[j] == (if old(self).slots@[j] is Some
                        && old(self).settled(j, self.head) {
                        old(self).slots@[j]
                    } else {
                        None
                    }),
                forall|j: int| i <= j < n ==> #[trigger] self.slots@[j] == old(self).slots@[j],
            decreases n - i,
        {
            let keep = match &self.slots[i] {
                Some(entry) => {
                    let d: i16 = wrapping_diff(entry.tick, self.head);
                    d >= 0 && (d as usize) < n && entry.tick as usize % n == i
                },
                None => true,
            };
            if !keep {
                self.slots[i] = None;
            }
            i = i + 1;
        }
        proof {
            let cap = old(self).capacity();
            assert forall|t: u16|
                self.holds(t) <==> old(self).holds(t) && in_window(t, old(self).head, cap) by {
                let j = slot_of(t, cap);
                assert(0 <= j < n);
                assert(self.slots@[j] == (if old(self).slots@[j] is Some && old(self).settled(
                    j,
                    self.head,
                ) {
                    old(self).slots@[j]
                } else {
                    None
                }));
            }
            assert forall|j: int|
                0 <= j < self.slots@.len() && self.slots@[j] is Some implies self.settled(
                j,
                self.head,
            ) by {
                assert(self.slots@[j] == (if old(self).slots@[j] is Some && old(self).settled(
                    j,
                    self.head,
                ) {
                    old(self).slots@[j]
                } else {
                    None
                }));
            }
        }
    }

    /// Puts `value` in the place of the value stored under `tick`, and
    /// returns that one. Nothing changes if nothing is stored under `tick`;
    /// `value` is then handed back.
    pub fn replace(&mut self, tick: u16, value: T) -> (r: Result<T, T>)
        requires
            old(self).wf(),
        ensures
            final(self).wf(),
            final(self).capacity() == old(self).capacity(),
            final(self).newest() == old(self).newest(),
            match r {
                Ok(previous) => old(self)@.contains_key(tick) && previous == old(self)@[tick]
                    && final(self)@ == old(self)@.insert(tick, value),
                Err(unused) => !old(self)@.contains_key(tick) && unused == value && final(self)@
                    == old(self)@,
            },
    {
        if !self.contains(tick) {
            return Err(value);
        }
        let i = self.index(tick);
        let mut taken: Option<Slot<T>> = Some(Slot { tick, value });
        std::mem::swap(&mut self.slots[i], &mut taken);
        proof {
            let cap = old(self).capacity();
            assert forall|t: u16| self@.contains_key(t) == old(self)@.insert(
                tick,
                value,
            ).contains_key(t) by {
                if slot_of(t, cap) != slot_of(tick, cap) {
                    assert(self.slots@[slot_of(t, cap)] == old(self).slots@[slot_of(t, cap)]);
                }
            }
            assert forall|t: u16| self@.contains_key(t) implies self@[t] == old(self)@.insert(
                tick,
                value,
            )[t] by {
                if slot_of(t, cap) != slot_of(tick, cap) {
                    assert(self.slots@[slot_of(t, cap)] == old(self).slots@[slot_of(t, cap)]);
                }
            }
            assert(self@ =~= old(self)@.insert(tick, value));
            assert forall|j: int|
                0 <= j < self.slots@.len() && (#[trigger] self.slots@[j]) is Some
                implies self.settled(j, self.head) by {
                if j != i {
                    assert(old(self).slots@[j] is Some);
                    assert(old(self).settled(j, old(self).head));
                } else {
                    assert(old(self).settled(j, old(self).head));
                }
            }
        }
        Ok(taken.unwrap().value)
    }

    /// Takes the value stored under `tick` out of the buffer.
    pub fn remove(&mut self, tick: u16) -> (r: Option<T>)
        requires
            old(self).wf(),
        ensures
            final(self).wf(),
            final(self).capacity() == old(self).capacity(),
            final(self).newest() == old(self).newest(),
            final(self)@ == old(self)@.remove(tick),
            match r {
                Some(v) => old(self)@.contains_key(tick) && v == old(self)@[tick],
                None => !old(self)@.contains_key(tick),
            },
    {
        if !self.contains(tick) {
            assert(self@ =~= old(self)@.remove(tick));
            return None;
        }
        let i = self.index(tick);
        let mut taken: Option<Slot<T>> = None;
        std::mem::swap(&mut self.slots[i], &mut taken);
        proof {
            let cap = old(self).capacity();
            assert forall|t: u16| self@.contains_key(t) == old(self)@.remove(tick).contains_key(
                t,
            ) by {
                if slot_of(t, cap) != slot_of(tick, cap) {
                    assert(self.slots@[slot_of(t, cap)] == old(self).slots@[slot_of(t, cap)]);
                }
            }
            assert(self@ =~= old(self)@.remove(tick));
        }
        match taken {
            Some(entry) => Some(entry.value),
            None => None,
        }
    }

    /// Forgets every entry whose tick is `tick` or earlier.
    pub fn remove_until(&mut self, tick: u16)
        requires
            old(self).wf(),
        ensures
            final(self).wf(),
            final(self).capacity() == old(self).capacity(),
            final(self).newest() == old(self).newest(),
            final(self)@ == spec_remove_until(old(self)@, tick),
    {
        let n = self.slots.len();
        let mut i: usize = 0;
        while i < n
            invariant
                i <= n,
                n == self.slots@.len(),
                old(self).wf(),
                self.sized(),
                self.head == old(self).head,
                self.started == old(self).started,
                forall|j: int|
                    0 <= j < i ==> #[trigger] self.slots@[j] == (if old(self).slots@[j] is Some
                        && spec_wrapping_diff(tick, old(self).slots@[j]->0.tick) <= 0 {
                        None
                    } else {
                        old(self).slots@[j]
                    }),
                forall|j: int| i <= j < n ==> #[trigger] self.slots@[j] == old(self).slots@[j],
            decreases n - i,
        {
            let stale = match &self.slots[i] {
                Some(entry) => wrapping_diff(tick, entry.tick) <= 0,
                None => false,
            };
            if stale {
                self.slots[i] = None;
            }
            i = i + 1;
        }
        proof {
            let cap = old(self).capacity();
            let expected = spec_remove_until(old(self)@, tick);
            assert forall|t: u16| self@.contains_key(t) == expected.contains_key(t) by {
                let j = slot_of(t, cap);
                assert(0 <= j < n);
                assert(self.slots@[j] == (if old(self).slots@[j] is Some && spec_wrapping_diff(
                    tick,
                    old(self).slots@[j]->0.tick,
                ) <= 0 {
                    None
                } else {
                    old(self).slots@[j]
                }));
            }
            assert(self@ =~= expected);
        }
    }

    /// The visible entries, each with its tick, oldest first, or newest
    /// first if `reverse`.
    pub fn iter(&self, reverse: bool) -> (entries: Vec<(u16, &T)>)
        requires
            self.wf(),
        ensures
            entries@.len() == spec_ordered(self@, self.head(), self.capacity(), reverse).len(),
            forall|i: int|
                0 <= i < entries@.len() ==> {
                    let tick = spec_ordered(self@, self.head(), self.capacity(), reverse)[i];
                    &&& (#[trigger] entries@[i]).0 == tick
                    &&& self@.contains_key(tick)
                    &&& *entries@[i].1 == self@[tick]
                },
    {
        let ticks = self.ticks(reverse);
        proof {
            lemma_ticks_held(self@, self.head(), self.capacity());
        }
        let mut entries: Vec<(u16, &T)> = Vec::new();
        let mut i: usize = 0;
        while i < ticks.len()
            invariant
                i <= ticks@.len(),
                self.wf(),
                ticks@ == spec_ordered(self@, self.head(), self.capacity(), reverse),
                forall|k: int| 0 <= k < ticks@.len() ==> self@.contains_key(#[trigger] ticks@[k]),
                entries@.len() == i,
                forall|k: int|
                    0 <= k < i ==> (#[trigger] entries@[k]).0 == ticks@[k] && *entries@[k].1
                        == self@[ticks@[k]],
            decreases ticks@.len() - i,
        {
            let tick = ticks[i];
            assert(self@.contains_key(ticks@[i as int]));
            match self.get(tick) {
                Some(value) => {
                    entries.push((tick, value));
                },
                None => {},
            }
            i = i + 1;
        }
        entries
    }

    /// The visible ticks, oldest first, or newest first if `reverse`.
    pub fn ticks(&self, reverse: bool) -> (ticks: Vec<u16>)
        requires
            self.wf(),
        ensures
            ticks@ == spec_ordered(self@, self.head(), self.capacity(), reverse),
    {
        let n: u16 = self.len();
        let mut ticks: Vec<u16> = Vec::new();
        let mut back: u16 = 0;
        // walks from the head towards the past, so the list is newest first
        while back < n
            invariant
                back <= n,
                n == self.capacity(),
                self.wf(),
                ticks@.reverse() == spec_ticks_from(self@, self.head(), back as nat),
            decreases n - back,
        {
            let tick: u16 = self.head.wrapping_sub(back);
            assert(tick == ((self.head as int - back as int) % 65536) as u16);
            let ghost before = ticks@;
            if self.contains(tick) {
                ticks.push(tick);
                assert(ticks@.reverse() =~= seq![tick] + before.reverse());
            }
            back = back + 1;
        }
        if reverse {
            assert(ticks@ =~= ticks@.reverse().reverse());
            ticks
        } else {
            let mut ordered: Vec<u16> = Vec::new();
            let mut i: usize = ticks.len();
            while i > 0
                invariant
                    i <= ticks@.len(),
                    ordered@.len() == ticks@.len() - i,
                    forall|j: int|
                        0 <= j < ordered@.len() ==> ordered@[j] == ticks@[ticks@.len() - 1 - j],
                decreases i,
            {
                i = i - 1;
                ordered.push(ticks[i]);
            }
            assert(ordered@ =~= ticks@.reverse());
            ordered
        }
    }

    /// How many entries are visible.
    pub fn get_entries_count(&self) -> (count: u16)
        requires
            self.wf(),
        ensures
            count == spec_ticks_from(self@, self.head(), self.capacity()).len(),
    {
        let ticks = self.ticks(false);
        proof {
            lemma_ticks_len(self@, self.head(), self.capacity());
        }
        ticks.len() as u16
    }
}

/// What was inserted is what the buffer reports under its tick.
pub proof fn lemma_insert_reports<T>(
    entries: Map<u16, T>,
    head: Option<u16>,
    capacity: nat,
    tick: u16,
    value: T,
)
    ensures
        spec_insert(entries, head, capacity, tick, value).contains_key(tick),
        spec_insert(entries, head, capacity, tick, value)[tick] == value,
{
}

/// An insert leaves the value of another tick as it was, unless it evicts
/// it: because the other tick has left the window that ends at the new
/// head, or because it shares the slot of the tick that was inserted.
pub proof fn lemma_insert_keeps<T>(
    entries: Map<u16, T>,
    head: Option<u16>,
    capacity: nat,
    tick: u16,
    value: T,
    other: u16,
)
    requires
        other != tick,
    ensures
        spec_insert(entries, head, capacity, tick, value).contains_key(other) <==> (
        entries.contains_key(other) && in_window(other, spec_advance(head, tick), capacity)
            && slot_of(other, capacity) != slot_of(tick, capacity)),
        spec_insert(entries, head, capacity, tick, value).contains_key(other) ==> spec_insert(
            entries,
            head,
            capacity,
            tick,
            value,
        )[other] == entries[other],
{
}

/// After `remove_until(tick)` the buffer reports nothing under `tick` or an
/// earlier tick, and what it did under the later ones.
pub proof fn lemma_remove_until_reports<T>(entries: Map<u16, T>, tick: u16, other: u16)
    ensures
        spec_remove_until(entries, tick).contains_key(other) <==> (entries.contains_key(other)
            && spec_wrapping_diff(tick, other) > 0),
        spec_remove_until(entries, tick).contains_key(other) ==> spec_remove_until(
            entries,
            tick,
        )[other] == entries[other],
        !spec_remove_until(entries, tick).contains_key(tick),
{
}

/// A value that is inserted after a `remove_until` that covered its tick is
/// reported again.
pub proof fn lemma_insert_after_remove_until<T>(
    entries: Map<u16, T>,
    head: Option<u16>,
    capacity: nat,
    removed: u16,
    tick: u16,
    value: T,
)
    ensures
        spec_insert(spec_remove_until(entries, removed), head, capacity, tick, value)[tick]
            == value,
        spec_insert(spec_remove_until(entries, removed), head, capacity, tick, value).contains_key(
            tick,
        ),
{
}

/// Every tick that a buffer lists is the tick of an entry.
pub proof fn lemma_ticks_held<T>(entries: Map<u16, T>, head: u16, back: nat)
    ensures
        forall|k: int|
            0 <= k < spec_ticks_from(entries, head, back).len() ==> entries.contains_key(
                #[trigger] spec_ticks_from(entries, head, back)[k],
            ),
        forall|k: int|
            0 <= k < spec_ticks_from(entries, head, back).reverse().len()
                ==> entries.contains_key(
                #[trigger] spec_ticks_from(entries, head, back).reverse()[k],
            ),
        forall|k: int, reverse: bool|
            0 <= k < spec_ordered(entries, head, back, reverse).len() ==> entries.contains_key(
                #[trigger] spec_ordered(entries, head, back, reverse)[k],
            ),
    decreases back,
{
    if back > 0 {
        lemma_ticks_held(entries, head, (back - 1) as nat);
        let all = spec_ticks_from(entries, head, back);
        let rest = spec_ticks_from(entries, head, (back - 1) as nat);
        assert forall|k: int| 0 <= k < all.len() implies entries.contains_key(#[trigger] all[k]) by {
            if all.len() != rest.len() && k > 0 {
                assert(all[k] == rest[k - 1]);
            }
        }
        assert forall|k: int| 0 <= k < all.reverse().len() implies entries.contains_key(
            #[trigger] all.reverse()[k],
        ) by {
            assert(all.reverse()[k] == all[all.len() - 1 - k]);
        }
    }
}

/// The window of `back` ticks holds at most `back` entries.
pub proof fn lemma_ticks_len<T>(entries: Map<u16, T>, head: u16, back: nat)
    ensures
        spec_ticks_from(entries, head, back).len() <= back,
    decreases back,
{
    if back > 0 {
        lemma_ticks_len(entries, head, (back - 1) as nat);
    }
}

} // verus!
