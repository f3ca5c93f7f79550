//! A server together with the watch over the packets it has sent: what
//! comes in confirms packets, what goes out is watched, and what has been
//! under way for too long is given up as lost.

use vstd::prelude::*;
use crate::manifest::{KindBuilder, ReplicaBuilder};
use crate::protocol_type::ProtocolType;
use crate::server::dispatch::Reply;
use crate::server::host::{OutgoingPacket, Server, spec_packets};
use crate::server::packet_watch::{PacketWatch, Watched, spec_others, spec_split};
use crate::server::server_view::{OutgoingView, Sending, ServerView};
use crate::server::user::Address;

verus! {

/// The packets `packets[from..]`, as they are watched when sent at `now`.
pub open spec fn spec_watched(packets: Seq<OutgoingView>, now: u64, from: nat) -> Seq<Watched>
    decreases packets.len() - from,
{
    if from >= packets.len() {
        Seq::empty()
    } else {
        seq![
            Watched {
                user: packets[from as int].user,
                packet_index: packets[from as int].packet_index,
                sent_at: now,
            },
        ] + spec_watched(packets, now, from + 1)
    }
}

/// The server after the packets `lost[from..]` have been settled as lost,
/// in order.
pub open spec fn spec_given_up(server: ServerView, lost: Seq<Watched>, from: nat) -> ServerView
    decreases lost.len() - from,
{
    if from >= lost.len() {
        server
    } else {
        spec_given_up(
            server.settle(lost[from as int].user, lost[from as int].packet_index, false),
            lost,
            from + 1,
        )
    }
}

/// A server and the watch over its packets.
pub struct Endpoint<P: ProtocolType, B: ReplicaBuilder<P> = KindBuilder<P>> {
    pub server: Server<P, B>,
    pub watch: PacketWatch,
}

impl<P: ProtocolType, B: ReplicaBuilder<P>> Endpoint<P, B> {
    /// An endpoint around `server` that watches no packet yet.
    pub fn new(server: Server<P, B>) -> (endpoint: Self)
        ensures
            endpoint.server == server,
            endpoint.watch@ == Seq::<Watched>::empty(),
    {
        Endpoint { server, watch: PacketWatch::new() }
    }

    /// Takes in a packet that has come from `address` at `now`, and says
    /// what is to be sent back. A packet that the server takes as the
    /// confirmation of a data packet ends the watch over that packet.
    pub fn receive_packet(&mut self, address: Address, now: u64, packet: &[u8]) -> (reply: Reply)
        requires
            old(self).server.wf(),
        ensures
            final(self).server.wf(),
            final(self).server.registered() == old(self).server.registered(),
            final(self).server@ == old(self).server@.receive_packet::<P::Kind>(
                address,
                now,
                old(self).server.registered(),
                packet@,
            ).state,
            reply == old(self).server@.receive_packet::<P::Kind>(
                address,
                now,
                old(self).server.registered(),
                packet@,
            ).reply,
            final(self).watch@ == (match reply {
                Reply::Confirmed(user, packet_index) => spec_others(
                    old(self).watch@,
                    user,
                    packet_index,
                    0,
                ),
                _ => old(self).watch@,
            }),
    {
        let reply = self.server.receive_packet(address, now, packet);
        match reply {
            Reply::Confirmed(user, packet_index) => {
                let _ = self.watch.confirmed(user, packet_index);
            },
            _ => {},
        }
        reply
    }

    /// Sends every connected user what it is owed, and watches over each
    /// packet from `now` on. Returns the packets for the transport to send.
    pub fn send_all_updates(&mut self, now: u64, mtu: usize) -> (packets: Vec<OutgoingPacket>)
        requires
            old(self).server.wf(),
        ensures
            final(self).server.wf(),
            final(self).server.registered() == old(self).server.registered(),
            (Sending { state: final(self).server@, packets: spec_packets(packets@) }) == old(
                self,
            ).server@.send_from(now, mtu as nat, 0, Seq::empty()),
            final(self).watch@ == old(self).watch@ + spec_watched(spec_packets(packets@), now, 0),
    {
        let packets = self.server.send_all_updates(now, mtu);
        let ghost views = spec_packets(packets@);
        let ghost start = self.watch@;
        let mut i: usize = 0;
        assert(start + Seq::<Watched>::empty() =~= start);
        while i < packets.len()
            invariant
                i <= packets@.len(),
                views == spec_packets(packets@),
                self.server.wf(),
                self.server.registered() == old(self).server.registered(),
                (Sending { state: self.server@, packets: views }) == old(self).server@.send_from(
                    now,
                    mtu as nat,
                    0,
                    Seq::empty(),
                ),
                self.watch@ + spec_watched(views, now, i as nat) == start + spec_watched(
                    views,
                    now,
                    0,
                ),
            decreases packets@.len() - i,
        {
            let ghost before = self.watch@;
            let ghost rest = spec_watched(views, now, (i + 1) as nat);
            assert(views[i as int] == packets@[i as int]@);
            self.watch.sent(packets[i].user, packets[i].packet_index, now);
            assert(self.watch@ + rest =~= before + spec_watched(views, now, i as nat));
            i = i + 1;
        }
        assert(self.watch@ + Seq::<Watched>::empty() =~= self.watch@);
        packets
    }

    /// Gives up the packets that have been under way for `patience` or
    /// longer at `now`: each is settled as lost, so that what it carried is
    /// owed again, and is watched no more. Returns how many there were.
    pub fn give_up_overdue(&mut self, now: u64, patience: u64) -> (count: usize)
        requires
            old(self).server.wf(),
        ensures
            final(self).server.wf(),
            final(self).server.registered() == old(self).server.registered(),
            final(self).watch@ == spec_split(old(self).watch@, now, patience, false, 0),
            final(self).server@ == spec_given_up(
                old(self).server@,
                spec_split(old(self).watch@, now, patience, true, 0),
                0,
            ),
            count == spec_split(old(self).watch@, now, patience, true, 0).len(),
    {
        let lost = self.watch.take_overdue(now, patience);
        let mut i: usize = 0;
        while i < lost.len()
            invariant
                i <= lost@.len(),
                self.server.wf(),
                self.server.registered() == old(self).server.registered(),
                self.watch@ == spec_split(old(self).watch@, now, patience, false, 0),
                spec_given_up(self.server@, lost@, i as nat) == spec_given_up(
                    old(self).server@,
                    lost@,
                    0,
                ),
            decreases lost@.len() - i,
        {
            self.server.notify_packet(lost[i].user, lost[i].packet_index, false);
            i = i + 1;
        }
        lost.len()
    }
}

} // verus!
