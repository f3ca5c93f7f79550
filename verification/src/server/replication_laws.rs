//! What is owed to a connection is never forgotten: a property that has
//! changed stays owed until a packet that carries it has arrived.

use vstd::prelude::*;
use crate::diff_mask::{lemma_clear_no_bit, lemma_or_bit, spec_bit};
use crate::server::entity_store::ComponentView;
use crate::server::keys::ReplicaKey;
use crate::server::replication_view::{
    ReplicationView, ScopePhase, SentKind, SentView, lemma_found, spec_component_by_local,
    spec_live_component,
};
use crate::server::section_writer::Writing;

verus! {

/// Whether one of `sent[from..]` is an update of the component with the
/// local key `local` that carries the property `bit`.
pub open spec fn spec_carried(sent: Seq<SentView>, local: u16, bit: nat, from: nat) -> bool
    decreases sent.len() - from,
{
    if from >= sent.len() {
        false
    } else if sent[from as int].kind == SentKind::Update && sent[from as int].local == local
        && spec_bit(sent[from as int].mask, bit) {
        true
    } else {
        spec_carried(sent, local, bit, from + 1)
    }
}

/// Whether the property `bit` of the component at place `j` is owed to the
/// connection: it has changed and was not sent, or it was sent in a packet
/// of which nothing is known yet.
pub open spec fn spec_owed(view: ReplicationView, j: int, bit: nat) -> bool {
    spec_bit(view.components[j].mask, bit) || spec_carried(
        view.in_flight,
        view.components[j].local,
        bit,
        0,
    )
}

/// Records at the end of a list carry what they carry, besides what the
/// list carried.
pub proof fn lemma_carried_push(sent: Seq<SentView>, record: SentView, local: u16, bit: nat, from: nat)
    requires
        from <= sent.len(),
    ensures
        spec_carried(sent.push(record), local, bit, from) == (spec_carried(sent, local, bit, from)
            || (record.kind == SentKind::Update && record.local == local && spec_bit(
            record.mask,
            bit,
        ))),
    decreases sent.len() - from,
{
    let longer = sent.push(record);
    if from < sent.len() {
        assert(longer[from as int] == sent[from as int]);
        lemma_carried_push(sent, record, local, bit, from + 1);
    } else {
        assert(longer[from as int] == record);
        assert(!spec_carried(longer, local, bit, from + 1));
    }
}

/// A property that changes is owed at once: after `mutate` every property
/// in `diff` is set in the mask of the component, which loses none that
/// was set.
pub proof fn lemma_mutate_owes(view: ReplicationView, component: ReplicaKey, diff: Seq<u8>, bit: nat)
    requires
        view.has_component(component),
        diff.len() == view.component(component).mask.len(),
    ensures
        ({
            let j = spec_live_component(view.components, component, 0);
            let after = view.mutate(component, diff);
            spec_bit(after.components[j].mask, bit) == (spec_bit(view.components[j].mask, bit)
                || spec_bit(diff, bit))
        }),
{
    let j = spec_live_component(view.components, component, 0);
    lemma_found(view.entities, view.components, 0, component, 0, 0);
    lemma_or_bit(view.components[j].mask, diff, bit);
}

/// Writing an update forgets nothing: the properties that were owed for the
/// component are owed afterwards, now as carried by the packet.
pub proof fn lemma_update_keeps_owed(
    writing: Writing,
    world: Map<u64, ComponentView>,
    packet: u16,
    limit: nat,
    j: int,
    bit: nat,
)
    requires
        0 <= j < writing.view.components.len(),
    ensures
        spec_owed(writing.update_one(world, packet, limit, j).view, j, bit) == spec_owed(
            writing.view,
            j,
            bit,
        ),
{
    let entry = writing.view.components[j];
    let after = writing.update_one(world, packet, limit, j);
    let encoded = crate::action_writer::spec_encode_update(
        entry.local,
        entry.mask,
        world[entry.component].replica,
    );
    if writing.fits(limit, encoded) {
        let record = SentView {
            packet,
            kind: SentKind::Update,
            local: entry.local,
            mask: entry.mask,
        };
        assert(after.view.in_flight =~= writing.view.in_flight.push(record));
        lemma_carried_push(writing.view.in_flight, record, entry.local, bit, 0);
        lemma_clear_no_bit(after.view.components[j].mask);
    }
}

/// A lost update is owed again: after the record of an update of an active
/// component has been given up, every property that it carried is set in
/// the mask of the component, which loses none that was set.
pub proof fn lemma_lost_owes_again(view: ReplicationView, record: SentView, bit: nat)
    requires
        record.kind == SentKind::Update,
        spec_component_by_local(view.components, record.local, 0) < view.components.len(),
        view.components[spec_component_by_local(view.components, record.local, 0)].phase
            == ScopePhase::Active,
        record.mask.len() == view.components[spec_component_by_local(
            view.components,
            record.local,
            0,
        )].mask.len(),
    ensures
        ({
            let j = spec_component_by_local(view.components, record.local, 0);
            spec_bit(view.lost(record).components[j].mask, bit) == (spec_bit(
                view.components[j].mask,
                bit,
            ) || spec_bit(record.mask, bit))
        }),
{
    let j = spec_component_by_local(view.components, record.local, 0);
    lemma_found(view.entities, view.components, 0, 0, record.local, 0);
    lemma_or_bit(view.components[j].mask, record.mask, bit);
}

/// A confirmed update takes nothing from the mask of its component: what
/// has changed since the update was written stays owed.
pub proof fn lemma_confirmed_update_keeps_mask(view: ReplicationView, record: SentView)
    requires
        record.kind == SentKind::Update,
    ensures
        view.confirmed(record) == view,
{
}

/// Giving up a record changes no component but in its mask, and takes no
/// property out of any mask.
pub proof fn lemma_lost_grows(view: ReplicationView, record: SentView, j: int, bit: nat)
    requires
        0 <= j < view.components.len(),
    ensures
        view.lost(record).entities == view.entities,
        view.lost(record).in_flight == view.in_flight,
        view.lost(record).components.len() == view.components.len(),
        view.lost(record).components[j].local == view.components[j].local,
        view.lost(record).components[j].phase == view.components[j].phase,
        view.lost(record).components[j].mask.len() == view.components[j].mask.len(),
        spec_bit(view.components[j].mask, bit) ==> spec_bit(
            view.lost(record).components[j].mask,
            bit,
        ),
{
    let at = spec_component_by_local(view.components, record.local, 0);
    lemma_found(view.entities, view.components, 0, 0, record.local, 0);
    if view.lost(record) != view && j == at {
        if record.mask.len() == view.components[j].mask.len() {
            lemma_or_bit(view.components[j].mask, record.mask, bit);
        }
    }
}

/// What a lost packet carried is owed again: after the transport has given
/// up the packet `packet`, every property that an update in it carried for
/// a component that the client knows is set in the mask of that component.
pub proof fn lemma_nack_owes_again(
    view: ReplicationView,
    packet: u16,
    from: nat,
    k: int,
    j: int,
    bit: nat,
)
    requires
        view.sound(),
        from <= k < view.in_flight.len(),
        view.in_flight[k].packet == packet,
        view.in_flight[k].kind == SentKind::Update,
        0 <= j < view.components.len(),
        view.components[j].local == view.in_flight[k].local,
        view.components[j].phase == ScopePhase::Active,
        view.components[j].mask.len() == view.in_flight[k].mask.len(),
        spec_bit(view.in_flight[k].mask, bit),
    ensures
        0 <= j < view.settle_from(packet, false, from).components.len(),
        spec_bit(view.settle_from(packet, false, from).components[j].mask, bit),
        view.settle(packet, false).components == view.settle_from(packet, false, 0).components,
    decreases view.in_flight.len() - from,
{
    lemma_settled_grows(view, packet, from, j, bit);
    let record = view.in_flight[from as int];
    let next = if record.packet != packet {
        view
    } else {
        view.lost(record)
    };
    let carried = ReplicationView { in_flight: view.in_flight, ..next };
    lemma_lost_grows(view, record, j, bit);
    crate::server::replication_view::lemma_lost_sound(view, record);
    assert(carried.sound()) by {
        assert(carried == next);
    }
    if from as int == k {
        // the record itself: its component is found under its key, and its
        // properties are put back
        let at = spec_component_by_local(view.components, record.local, 0);
        lemma_found(view.entities, view.components, 0, 0, record.local, 0);
        crate::server::replication_view::lemma_local_absent(
            view.entities,
            view.components,
            record.local,
            0,
        );
        assert(at < view.components.len()) by {
            if at >= view.components.len() {
                assert(view.components[j].local != record.local);
            }
        }
        assert(at == j) by {
            if at != j {
                assert(view.components[at].local == view.components[j].local);
                if at < j {
                    assert(view.components[at].local != view.components[j].local);
                } else {
                    assert(view.components[j].local != view.components[at].local);
                }
            }
        }
        lemma_or_bit(view.components[j].mask, record.mask, bit);
        assert(spec_bit(carried.components[j].mask, bit));
        lemma_settled_grows(carried, packet, from + 1, j, bit);
    } else {
        lemma_nack_owes_again(carried, packet, from + 1, k, j, bit);
    }
}

/// Settling lost records takes no property out of any mask, and changes no
/// component otherwise.
pub proof fn lemma_settled_grows(view: ReplicationView, packet: u16, from: nat, j: int, bit: nat)
    requires
        0 <= j < view.components.len(),
    ensures
        view.settle_from(packet, false, from).components.len() == view.components.len(),
        view.settle_from(packet, false, from).components[j].local == view.components[j].local,
        view.settle_from(packet, false, from).components[j].phase == view.components[j].phase,
        view.settle_from(packet, false, from).components[j].mask.len()
            == view.components[j].mask.len(),
        spec_bit(view.components[j].mask, bit) ==> spec_bit(
            view.settle_from(packet, false, from).components[j].mask,
            bit,
        ),
    decreases view.in_flight.len() - from,
{
    if from < view.in_flight.len() {
        let record = view.in_flight[from as int];
        let next = if record.packet != packet {
            view
        } else {
            view.lost(record)
        };
        lemma_lost_grows(view, record, j, bit);
        let carried = ReplicationView { in_flight: view.in_flight, ..next };
        lemma_settled_grows(carried, packet, from + 1, j, bit);
    }
}

} // verus!
