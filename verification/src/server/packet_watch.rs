//! The data packets that were sent and of which nothing has been heard:
//! the part of the transport that decides when a packet counts as lost.

use vstd::prelude::*;
use crate::server::keys::UserKey;

verus! {

/// A data packet that was sent.
#[derive(Clone, Copy, Debug, PartialEq, Eq, Structural)]
pub struct Watched {
    pub user: UserKey,
    pub packet_index: u16,
    /// When it was sent.
    pub sent_at: u64,
}

/// Whether `watched` is the packet `packet_index` to `user`.
pub open spec fn spec_is_packet(watched: Watched, user: UserKey, packet_index: u16) -> bool {
    watched.user == user && watched.packet_index == packet_index
}

/// Whether `watched` has been under way for `patience` or longer at `now`.
pub open spec fn spec_is_overdue(watched: Watched, now: u64, patience: u64) -> bool {
    now >= watched.sent_at && now - watched.sent_at >= patience
}

/// Those of `waiting[from..]` that are not the packet `packet_index` to
/// `user`, in order.
pub open spec fn spec_others(waiting: Seq<Watched>, user: UserKey, packet_index: u16, from: nat)
    -> Seq<Watched>
    decreases waiting.len() - from,
{
    if from >= waiting.len() {
        Seq::empty()
    } else if spec_is_packet(waiting[from as int], user, packet_index) {
        spec_others(waiting, user, packet_index, from + 1)
    } else {
        seq![waiting[from as int]] + spec_others(waiting, user, packet_index, from + 1)
    }
}

/// Those of `waiting[from..]` that are overdue at `now` if `overdue`, those
/// that are not if not; in order.
pub open spec fn spec_split(
    waiting: Seq<Watched>,
    now: u64,
    patience: u64,
    overdue: bool,
    from: nat,
) -> Seq<Watched>
    decreases waiting.len() - from,
{
    if from >= waiting.len() {
        Seq::empty()
    } else if spec_is_overdue(waiting[from as int], now, patience) == overdue {
        seq![waiting[from as int]] + spec_split(waiting, now, patience, overdue, from + 1)
    } else {
        spec_split(waiting, now, patience, overdue, from + 1)
    }
}

/// Every packet that is handed out as overdue is overdue, and was waiting.
pub proof fn lemma_split_sound(waiting: Seq<Watched>, now: u64, patience: u64, overdue: bool, from: nat)
    ensures
        forall|k: int|
            0 <= k < spec_split(waiting, now, patience, overdue, from).len() ==> {
                let watched = #[trigger] spec_split(waiting, now, patience, overdue, from)[k];
                spec_is_overdue(watched, now, patience) == overdue && waiting.contains(watched)
            },
    decreases waiting.len() - from,
{
    if from < waiting.len() {
        lemma_split_sound(waiting, now, patience, overdue, from + 1);
        let rest = spec_split(waiting, now, patience, overdue, from + 1);
        let all = spec_split(waiting, now, patience, overdue, from);
        assert forall|k: int| 0 <= k < all.len() implies {
            let watched = #[trigger] all[k];
            spec_is_overdue(watched, now, patience) == overdue && waiting.contains(watched)
        } by {
            if spec_is_overdue(waiting[from as int], now, patience) == overdue {
                if k == 0 {
                    assert(all[0] == waiting[from as int]);
                } else {
                    assert(all[k] == rest[k - 1]);
                }
            }
        }
    }
}

/// The packets of which nothing has been heard, oldest first.
pub struct PacketWatch {
    waiting: Vec<Watched>,
}

impl PacketWatch {
    /// The packets that wait, oldest first.
    pub closed spec fn view(&self) -> Seq<Watched> {
        self.waiting@
    }

    /// A watch over no packet.
    pub fn new() -> (watch: Self)
        ensures
            watch@ == Seq::<Watched>::empty(),
    {
        PacketWatch { waiting: Vec::new() }
    }

    /// How many packets wait.
    pub fn len(&self) -> (n: usize)
        ensures
            n == self@.len(),
    {
        self.waiting.len()
    }

    /// Notes that the packet `packet_index` has been sent to `user` at
    /// `now`.
    pub fn sent(&mut self, user: UserKey, packet_index: u16, now: u64)
        ensures
            final(self)@ == old(self)@.push(Watched { user, packet_index, sent_at: now }),
    {
        self.waiting.push(Watched { user, packet_index, sent_at: now });
    }

    /// Notes that the packet `packet_index` to `user` has arrived: it
    /// waits no more. Returns whether it was waiting.
    pub fn confirmed(&mut self, user: UserKey, packet_index: u16) -> (found: bool)
        ensures
            final(self)@ == spec_others(old(self)@, user, packet_index, 0),
            found == (final(self)@.len() < old(self)@.len()),
    {
        let ghost all = self.waiting@;
        let mut kept: Vec<Watched> = Vec::new();
        let mut i: usize = 0;
        assert(kept@ + spec_others(all, user, packet_index, 0) =~= spec_others(
            all,
            user,
            packet_index,
            0,
        ));
        while i < self.waiting.len()
            invariant
                i <= all.len(),
                all == self.waiting@,
                kept@.len() <= i,
                kept@ + spec_others(all, user, packet_index, i as nat) == spec_others(
                    all,
                    user,
                    packet_index,
                    0,
                ),
            decreases all.len() - i,
        {
            let watched = self.waiting[i];
            let ghost before = kept@;
            let ghost rest = spec_others(all, user, packet_index, (i + 1) as nat);
            if !(watched.user == user && watched.packet_index == packet_index) {
                kept.push(watched);
                assert((before + seq![watched]) + rest =~= before + (seq![watched] + rest));
                assert(kept@ =~= before + seq![watched]);
            }
            i = i + 1;
        }
        assert(kept@ + Seq::<Watched>::empty() =~= kept@);
        let found = kept.len() < self.waiting.len();
        self.waiting = kept;
        found
    }

    /// Takes out the packets that have been under way for `patience` or
    /// longer at `now`, oldest first: they count as lost. The others go on
    /// waiting.
    pub fn take_overdue(&mut self, now: u64, patience: u64) -> (lost: Vec<Watched>)
        ensures
            lost@ == spec_split(old(self)@, now, patience, true, 0),
            final(self)@ == spec_split(old(self)@, now, patience, false, 0),
            lost@.len() + final(self)@.len() == old(self)@.len(),
    {
        let ghost all = self.waiting@;
        let mut kept: Vec<Watched> = Vec::new();
        let mut lost: Vec<Watched> = Vec::new();
        let mut i: usize = 0;
        assert(kept@ + spec_split(all, now, patience, false, 0) =~= spec_split(
            all,
            now,
            patience,
            false,
            0,
        ));
        assert(lost@ + spec_split(all, now, patience, true, 0) =~= spec_split(
            all,
            now,
            patience,
            true,
            0,
        ));
        while i < self.waiting.len()
            invariant
                i <= all.len(),
                all == self.waiting@,
                kept@.len() + lost@.len() == i,
                kept@ + spec_split(all, now, patience, false, i as nat) == spec_split(
                    all,
                    now,
                    patience,
                    false,
                    0,
                ),
                lost@ + spec_split(all, now, patience, true, i as nat) == spec_split(
                    all,
                    now,
                    patience,
                    true,
                    0,
                ),
            decreases all.len() - i,
        {
            let watched = self.waiting[i];
            let ghost kept_before = kept@;
            let ghost lost_before = lost@;
            let ghost kept_rest = spec_split(all, now, patience, false, (i + 1) as nat);
            let ghost lost_rest = spec_split(all, now, patience, true, (i + 1) as nat);
            if now >= watched.sent_at && now - watched.sent_at >= patience {
                lost.push(watched);
                assert((lost_before + seq![watched]) + lost_rest =~= lost_before + (seq![
                    watched,
                ] + lost_rest));
                assert(lost@ =~= lost_before + seq![watched]);
            } else {
                kept.push(watched);
                assert((kept_before + seq![watched]) + kept_rest =~= kept_before + (seq![
                    watched,
                ] + kept_rest));
                assert(kept@ =~= kept_before + seq![watched]);
            }
            i = i + 1;
        }
        assert(kept@ + Seq::<Watched>::empty() =~= kept@);
        assert(lost@ + Seq::<Watched>::empty() =~= lost@);
        self.waiting = kept;
        lost
    }
}

} // verus!
