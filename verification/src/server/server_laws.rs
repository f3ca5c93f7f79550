//! What holds of the server when the transport tells what became of a
//! packet: a lost update is owed again and is written again, a confirmed one
//! is settled for good.

use vstd::prelude::*;
use crate::action_writer::spec_encode_update;
use crate::server::entity_store::ComponentView;
use crate::server::keys::UserKey;
use crate::server::replication_laws::lemma_nack_owes_again;
use crate::diff_mask::{spec_bit, spec_is_clear};
use crate::server::replication_view::{
    PawnPhase, ReplicationView, ScopePhase, SentKind, SentView, lemma_found,
};
use crate::server::section_writer::Writing;
use crate::manager_type::ManagerType;
use crate::server::server_view::{
    OutgoingView, ServerView, UserStateView, spec_find_state, spec_section_header,
};

verus! {

/// Where `user` stands among `users[from..]`, it is the first state of that
/// user.
pub proof fn lemma_find_state(users: Seq<UserStateView>, user: UserKey, from: nat)
    requires
        from <= users.len(),
    ensures
        from <= spec_find_state(users, user, from) <= users.len(),
        spec_find_state(users, user, from) < users.len() ==> users[spec_find_state(
            users,
            user,
            from,
        )].user == user,
        forall|k: int|
            from <= k < spec_find_state(users, user, from) ==> (#[trigger] users[k]).user != user,
    decreases users.len() - from,
{
    if from < users.len() && users[from as int].user != user {
        lemma_find_state(users, user, from + 1);
    }
}

/// A user is found in the same place in two lists that name the same users
/// in the same order.
pub proof fn lemma_find_state_same(
    users: Seq<UserStateView>,
    others: Seq<UserStateView>,
    user: UserKey,
    from: nat,
)
    requires
        users.len() == others.len(),
        forall|k: int| 0 <= k < users.len() ==> (#[trigger] users[k]).user == others[k].user,
    ensures
        spec_find_state(users, user, from) == spec_find_state(others, user, from),
    decreases users.len() - from,
{
    if from < users.len() {
        assert(users[from as int].user == others[from as int].user);
        if users[from as int].user != user {
            lemma_find_state_same(users, others, user, from + 1);
        }
    }
}

/// When the transport tells what became of a packet to `user`, what the
/// user has been told is settled for that packet, and nothing else of the
/// server changes: not what another user has been told, not the world, not
/// the events.
pub proof fn lemma_settle_user(server: ServerView, user: UserKey, packet: u16, acked: bool)
    requires
        server.has_user(user),
    ensures
        ({
            let after = server.settle(user, packet, acked);
            &&& after.has_user(user)
            &&& after.user(user).replication == server.user(user).replication.settle(
                packet,
                acked,
            )
            &&& after.user(user).commands == server.user(user).commands
            &&& after.user(user).next_packet == server.user(user).next_packet
            &&& after.users.len() == server.users.len()
            &&& forall|k: int|
                0 <= k < server.users.len() && k != spec_find_state(server.users, user, 0)
                    ==> #[trigger] after.users[k] == server.users[k]
            &&& after.world == server.world
            &&& after.connections == server.connections
            &&& after.rooms == server.rooms
            &&& after.events == server.events
            &&& after.tick == server.tick
        }),
{
    let after = server.settle(user, packet, acked);
    lemma_find_state(server.users, user, 0);
    lemma_find_state_same(server.users, after.users, user, 0);
}

/// A server that is told that a packet is lost owes again what the packet
/// carried: every property that an update in the packet carried for a
/// component that the client knows is set in the mask that the server keeps
/// for that user and that component; and where the client knows the entity
/// of the component too, the update is due.
pub proof fn lemma_lost_packet_owes_again(
    server: ServerView,
    user: UserKey,
    packet: u16,
    k: int,
    j: int,
    bit: nat,
)
    requires
        server.has_user(user),
        server.user(user).replication.sound(),
        0 <= k < server.user(user).replication.in_flight.len(),
        server.user(user).replication.in_flight[k].packet == packet,
        server.user(user).replication.in_flight[k].kind == SentKind::Update,
        0 <= j < server.user(user).replication.components.len(),
        server.user(user).replication.components[j].local
            == server.user(user).replication.in_flight[k].local,
        server.user(user).replication.components[j].phase == ScopePhase::Active,
        server.user(user).replication.components[j].mask.len()
            == server.user(user).replication.in_flight[k].mask.len(),
        spec_bit(server.user(user).replication.in_flight[k].mask, bit),
    ensures
        ({
            let after = server.settle(user, packet, false).user(user).replication;
            &&& 0 <= j < after.components.len()
            &&& after.components[j].component == server.user(
                user,
            ).replication.components[j].component
            &&& spec_bit(after.components[j].mask, bit)
            &&& !spec_is_clear(after.components[j].mask)
            &&& server.user(user).replication.owner_active(j) ==> after.update_due(j)
        }),
{
    let before = server.user(user).replication;
    lemma_settle_user(server, user, packet, false);
    lemma_nack_owes_again(before, packet, 0, k, j, bit);
    lemma_settled_shape(before, packet, 0, j);
    let after = before.settle(packet, false);
    assert(after.components == before.settle_from(packet, false, 0).components);
    assert(after.entities == before.settle_from(packet, false, 0).entities);
    lemma_set_bit_not_clear(after.components[j].mask, bit);
}

/// A mask with a bit set is not clear.
pub proof fn lemma_set_bit_not_clear(mask: Seq<u8>, bit: nat)
    requires
        spec_bit(mask, bit),
    ensures
        !spec_is_clear(mask),
{
    let at = (bit / 8) as int;
    assert(0 <= at < mask.len());
    assert(mask[at] != 0) by {
        let byte = mask[at];
        let shift = (bit % 8) as u8;
        assert(shift < 8);
        assert((byte >> shift) & 1u8 == 1u8 ==> byte != 0u8) by (bit_vector)
            requires
                shift < 8u8,
        ;
    }
}

/// Settling lost records leaves every component and every entity what it
/// was, but for the masks.
pub proof fn lemma_settled_shape(view: ReplicationView, packet: u16, from: nat, j: int)
    requires
        0 <= j < view.components.len(),
    ensures
        view.settle_from(packet, false, from).entities == view.entities,
        view.settle_from(packet, false, from).components.len() == view.components.len(),
        view.settle_from(packet, false, from).components[j].component
            == view.components[j].component,
        view.settle_from(packet, false, from).components[j].owner == view.components[j].owner,
        view.settle_from(packet, false, from).components[j].phase == view.components[j].phase,
    decreases view.in_flight.len() - from,
{
    if from < view.in_flight.len() {
        let record = view.in_flight[from as int];
        let next = if record.packet != packet {
            view
        } else {
            view.lost(record)
        };
        lemma_found(view.entities, view.components, 0, 0, record.local, 0);
        assert(next.components.len() == view.components.len());
        assert(next.components[j].component == view.components[j].component);
        assert(next.components[j].owner == view.components[j].owner);
        assert(next.components[j].phase == view.components[j].phase);
        let carried = ReplicationView { in_flight: view.in_flight, ..next };
        lemma_settled_shape(carried, packet, from + 1, j);
    }
}

/// An update that is due and fits is written with the properties that are
/// owed and the values that the world holds now; the packet is remembered
/// with those properties, and the mask is cleared.
pub proof fn lemma_due_update_is_written(
    writing: Writing,
    world: Map<u64, ComponentView>,
    packet: u16,
    limit: nat,
    j: int,
)
    requires
        0 <= j < writing.view.components.len(),
        writing.update_ready(world, j),
        writing.fits(
            limit,
            spec_encode_update(
                writing.view.components[j].local,
                writing.view.components[j].mask,
                world[writing.view.components[j].component].replica,
            ),
        ),
    ensures
        ({
            let entry = writing.view.components[j];
            let after = writing.update_one(world, packet, limit, j);
            &&& after.body == writing.body + spec_encode_update(
                entry.local,
                entry.mask,
                world[entry.component].replica,
            )
            &&& after.count == writing.count + 1
            &&& after.view.in_flight == writing.view.in_flight.push(
                SentView { packet, kind: SentKind::Update, local: entry.local, mask: entry.mask },
            )
            &&& spec_is_clear(after.view.components[j].mask)
            &&& !after.view.update_due(j)
        }),
{
    let entry = writing.view.components[j];
    let after = writing.update_one(world, packet, limit, j);
    let record = SentView { packet, kind: SentKind::Update, local: entry.local, mask: entry.mask };
    assert(writing.view.in_flight + seq![record] =~= writing.view.in_flight.push(record));
    crate::server::replication_view::lemma_zeros_clear(entry.mask.len());
}

/// Settling confirmed updates changes nothing but that they are under way
/// no more: where every record of the packet is an update, the masks, the
/// components and the entities are what they were.
pub proof fn lemma_confirmed_updates_settle(view: ReplicationView, packet: u16, from: nat)
    requires
        forall|k: int|
            from <= k < view.in_flight.len() && (#[trigger] view.in_flight[k]).packet == packet
                ==> view.in_flight[k].kind == SentKind::Update,
    ensures
        view.settle_from(packet, true, from) == view,
    decreases view.in_flight.len() - from,
{
    if from < view.in_flight.len() {
        let record = view.in_flight[from as int];
        if record.packet == packet {
            assert(record.kind == SentKind::Update);
        }
        let carried = ReplicationView { in_flight: view.in_flight, ..view };
        assert(carried == view);
        lemma_confirmed_updates_settle(view, packet, from + 1);
    }
}

/// A server that is told that a packet has arrived holds no record of that
/// packet for the user any more, so nothing of it can be owed again. Where
/// the packet carried updates only, no mask has changed: a property that
/// was not owed is not owed now, and an update that was not due is not due.
pub proof fn lemma_confirmed_packet_is_settled(server: ServerView, user: UserKey, packet: u16)
    requires
        server.has_user(user),
    ensures
        ({
            let before = server.user(user).replication;
            let after = server.settle(user, packet, true).user(user).replication;
            &&& forall|k: int|
                0 <= k < after.in_flight.len() ==> (#[trigger] after.in_flight[k]).packet != packet
            &&& (forall|k: int|
                0 <= k < before.in_flight.len() && (#[trigger] before.in_flight[k]).packet
                    == packet ==> before.in_flight[k].kind == SentKind::Update) ==> {
                &&& after.components == before.components
                &&& after.entities == before.entities
                &&& forall|j: int|
                    0 <= j < before.components.len() ==> after.update_due(j)
                        == before.update_due(j)
            }
        }),
{
    let before = server.user(user).replication;
    lemma_settle_user(server, user, packet, true);
    let after = before.settle(packet, true);
    let keep = |record: SentView| record.packet != packet;
    assert forall|k: int| 0 <= k < after.in_flight.len() implies (#[trigger] after.in_flight[k]).packet
        != packet by {
        before.in_flight.lemma_filter_pred(keep, k);
    }
    if forall|k: int|
        0 <= k < before.in_flight.len() && (#[trigger] before.in_flight[k]).packet == packet
            ==> before.in_flight[k].kind == SentKind::Update {
        lemma_confirmed_updates_settle(before, packet, 0);
    }
}

impl ReplicationView {
    /// Nothing comes or goes: the client knows every entity and every
    /// component in scope, and no entity is being given to the user or taken
    /// from it.
    pub open spec fn settled(self) -> bool {
        &&& forall|i: int|
            0 <= i < self.entities.len() ==> (#[trigger] self.entities[i]).phase
                == ScopePhase::Active && self.entities[i].pawn != PawnPhase::Assigning
                && self.entities[i].pawn != PawnPhase::Releasing
        &&& forall|j: int|
            0 <= j < self.components.len() ==> (#[trigger] self.components[j]).phase
                == ScopePhase::Active
    }
}

/// Where nothing comes or goes, no entity is announced.
pub proof fn lemma_creates_quiet(
    writing: Writing,
    world: Map<u64, ComponentView>,
    packet: u16,
    limit: nat,
    i: nat,
)
    requires
        writing.view.settled(),
    ensures
        writing.creates_from(world, packet, limit, i) == writing,
    decreases writing.view.entities.len() - i,
{
    if i < writing.view.entities.len() {
        assert(writing.view.entities[i as int].phase == ScopePhase::Active);
        let same = Writing {
            view: ReplicationView { entities: writing.view.entities, ..writing.view },
            ..writing
        };
        assert(same == writing);
        lemma_creates_quiet(writing, world, packet, limit, i + 1);
    }
}

/// Where nothing comes or goes, no component is added or deleted.
pub proof fn lemma_structure_quiet(
    writing: Writing,
    world: Map<u64, ComponentView>,
    packet: u16,
    limit: nat,
    j: nat,
)
    requires
        writing.view.settled(),
    ensures
        writing.structure_from(world, packet, limit, j) == writing,
    decreases writing.view.components.len() - j,
{
    if j < writing.view.components.len() {
        assert(writing.view.components[j as int].phase == ScopePhase::Active);
        let same = Writing {
            view: ReplicationView { components: writing.view.components, ..writing.view },
            ..writing
        };
        assert(same == writing);
        lemma_structure_quiet(writing, world, packet, limit, j + 1);
    }
}

/// Where nothing comes or goes, no entity is given, taken or deleted.
pub proof fn lemma_entities_quiet(writing: Writing, packet: u16, limit: nat, i: nat)
    requires
        writing.view.settled(),
    ensures
        writing.pawns_from(packet, limit, i) == writing,
        writing.deletes_from(packet, limit, i) == writing,
    decreases writing.view.entities.len() - i,
{
    if i < writing.view.entities.len() {
        assert(writing.view.entities[i as int].phase == ScopePhase::Active);
        let same = Writing {
            view: ReplicationView { entities: writing.view.entities, ..writing.view },
            ..writing
        };
        assert(same == writing);
        lemma_entities_quiet(writing, packet, limit, i + 1);
    }
}

/// Where no component from place `j` on owes anything, no update is
/// written from there on.
pub proof fn lemma_updates_quiet(
    writing: Writing,
    world: Map<u64, ComponentView>,
    packet: u16,
    limit: nat,
    j: nat,
)
    requires
        forall|k: int|
            j <= k < writing.view.components.len() ==> spec_is_clear(
                (#[trigger] writing.view.components[k]).mask,
            ),
    ensures
        writing.updates_from(world, packet, limit, j) == writing,
    decreases writing.view.components.len() - j,
{
    if j < writing.view.components.len() {
        assert(spec_is_clear(writing.view.components[j as int].mask));
        lemma_updates_quiet(writing, world, packet, limit, j + 1);
    }
}

/// Where one component alone owes anything, its update is the one that is
/// offered.
pub proof fn lemma_updates_lone(
    writing: Writing,
    world: Map<u64, ComponentView>,
    packet: u16,
    limit: nat,
    from: nat,
    j: int,
)
    requires
        from <= j < writing.view.components.len(),
        writing.update_ready(world, j),
        forall|k: int|
            0 <= k < writing.view.components.len() && k != j ==> spec_is_clear(
                (#[trigger] writing.view.components[k]).mask,
            ),
        writing.fits(
            limit,
            spec_encode_update(
                writing.view.components[j].local,
                writing.view.components[j].mask,
                world[writing.view.components[j].component].replica,
            ),
        ),
    ensures
        writing.updates_from(world, packet, limit, from) == writing.update_one(
            world,
            packet,
            limit,
            j,
        ),
    decreases j - from,
{
    if from < j {
        assert(spec_is_clear(writing.view.components[from as int].mask));
        lemma_updates_lone(writing, world, packet, limit, from + 1, j);
    } else {
        let next = writing.update_one(world, packet, limit, j);
        crate::server::replication_view::lemma_zeros_clear(writing.view.components[j].mask.len());
        assert forall|k: int| j + 1 <= k < next.view.components.len() implies spec_is_clear(
            (#[trigger] next.view.components[k]).mask,
        ) by {
            assert(next.view.components[k] == writing.view.components[k]);
        }
        lemma_updates_quiet(next, world, packet, limit, (j + 1) as nat);
    }
}

/// Where nothing comes or goes and one component alone owes anything, the
/// next section is the update of that component, if the packet has room for
/// it: it carries the properties that are owed with the values that the
/// world holds now, the packet is remembered with those properties, and
/// nothing is owed any more.
pub proof fn lemma_lone_update_is_sent(
    view: ReplicationView,
    world: Map<u64, ComponentView>,
    packet: u16,
    limit: nat,
    j: int,
)
    requires
        view.settled(),
        0 <= j < view.components.len(),
        (Writing { view, body: Seq::empty(), count: 0, full: false }).update_ready(world, j),
        forall|k: int|
            0 <= k < view.components.len() && k != j ==> spec_is_clear(
                (#[trigger] view.components[k]).mask,
            ),
        spec_encode_update(
            view.components[j].local,
            view.components[j].mask,
            world[view.components[j].component].replica,
        ).len() <= limit,
    ensures
        ({
            let entry = view.components[j];
            let written = view.write_section(world, packet, limit);
            &&& written.body == spec_encode_update(
                entry.local,
                entry.mask,
                world[entry.component].replica,
            )
            &&& written.count == 1
            &&& written.view.in_flight == view.in_flight.push(
                SentView { packet, kind: SentKind::Update, local: entry.local, mask: entry.mask },
            )
            &&& written.view.entities == view.entities
            &&& spec_is_clear(written.view.components[j].mask)
        }),
{
    let start = Writing { view, body: Seq::empty(), count: 0, full: false };
    let entry = view.components[j];
    let encoded = spec_encode_update(entry.local, entry.mask, world[entry.component].replica);
    lemma_creates_quiet(start, world, packet, limit, 0);
    lemma_structure_quiet(start, world, packet, limit, 0);
    lemma_updates_lone(start, world, packet, limit, 0, j);
    lemma_due_update_is_written(start, world, packet, limit, j);
    let updated = start.update_one(world, packet, limit, j);
    assert(updated.view.settled()) by {
        assert forall|k: int| 0 <= k < updated.view.components.len() implies (
        #[trigger] updated.view.components[k]).phase == ScopePhase::Active by {
            if k != j {
                assert(updated.view.components[k] == view.components[k]);
            }
        }
    }
    lemma_entities_quiet(updated, packet, limit, 0);
    assert(Seq::<u8>::empty() + encoded =~= encoded);
}

/// A connected user for whom nothing comes or goes and to whom one
/// component alone owes anything is sent, with the next packets, one packet
/// whose entity section is the update of that component: under the
/// server's tick, one record, the properties that are owed with the values
/// that the world holds now.
pub proof fn lemma_lone_update_goes_out(
    server: ServerView,
    now: u64,
    mtu: nat,
    i: int,
    j: int,
    packets: Seq<OutgoingView>,
)
    requires
        0 <= i < server.users.len(),
        server.connected(server.users[i].user),
        mtu >= 4,
        server.users[i].replication.settled(),
        0 <= j < server.users[i].replication.components.len(),
        (Writing {
            view: server.users[i].replication,
            body: Seq::empty(),
            count: 0,
            full: false,
        }).update_ready(server.world.components, j),
        forall|k: int|
            0 <= k < server.users[i].replication.components.len() && k != j ==> spec_is_clear(
                (#[trigger] server.users[i].replication.components[k]).mask,
            ),
        spec_encode_update(
            server.users[i].replication.components[j].local,
            server.users[i].replication.components[j].mask,
            server.world.components[server.users[i].replication.components[j].component].replica,
        ).len() <= mtu - 4,
    ensures
        ({
            let state = server.users[i];
            let entry = state.replication.components[j];
            let sent = server.send_one(now, mtu, i, packets);
            &&& sent.packets == packets.push(
                OutgoingView {
                    user: state.user,
                    address: server.connections.record_of(state.user).address,
                    packet_index: state.next_packet,
                    payload: spec_section_header(ManagerType::Entity, server.tick) + (seq![1u8]
                        + spec_encode_update(
                        entry.local,
                        entry.mask,
                        server.world.components[entry.component].replica,
                    )),
                },
            )
            &&& spec_is_clear(sent.state.users[i].replication.components[j].mask)
        }),
{
    let state = server.users[i];
    lemma_lone_update_is_sent(
        state.replication,
        server.world.components,
        state.next_packet,
        (mtu - 4) as nat,
        j,
    );
}

} // verus!
