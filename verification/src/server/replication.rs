//! What one connection has been told and still has to be told.

use vstd::prelude::*;
use crate::action_writer::{
    spec_encode_components, spec_encode_create, write_add_component, write_component,
    write_keyed, write_update_component,
};
use crate::client::client_view::NewComponent;
use crate::diff_mask::DiffMask;
use crate::packet_reader::{write_bytes, write_u8};
use crate::protocol_type::ProtocolType;
use crate::replica_action_type::ReplicaActionType;
use crate::server::entity_store::EntityStore;
use crate::server::section_writer::{
    Gathered, Writing, lemma_encode_components_push, lemma_write_section_shape, spec_gather,
    spec_sent,
};
use crate::server::keys::{ReplicaKey, EntityKey};
use crate::server::replication_view::{
    lemma_add_component_sound, lemma_mutate_sound, lemma_pawn_sound, lemma_remove_component_sound,
    lemma_scope_in_sound, lemma_scope_out_sound, lemma_settle_sound, lemma_shape_sound,
    ComponentScopeView, EntityScope, PawnPhase, ReplicationView, ScopePhase, ScopedComponent,
    SentKind, SentView, spec_command_target, spec_component_by_local, spec_entity_by_local,
    spec_live_component, spec_live_entity, spec_sent_about,
};

verus! {

/// A component in the scope of a connection.
pub struct ComponentScope {
    pub component: ReplicaKey,
    pub owner: u16,
    pub local: u16,
    pub phase: ScopePhase,
    pub mask: DiffMask,
}

impl ComponentScope {
    /// What this value is to the contracts.
    pub open spec fn view(&self) -> ComponentScopeView {
        ComponentScopeView {
            component: self.component,
            owner: self.owner,
            local: self.local,
            phase: self.phase,
            mask: self.mask@,
        }
    }
}

/// A record of a packet that is under way.
pub struct SentRecord {
    pub packet: u16,
    pub kind: SentKind,
    pub local: u16,
    pub mask: DiffMask,
}

impl SentRecord {
    /// What this value is to the contracts.
    pub open spec fn view(&self) -> SentView {
        SentView { packet: self.packet, kind: self.kind, local: self.local, mask: self.mask@ }
    }
}

/// The views of a list of components in scope.
pub open spec fn spec_scopes(components: Seq<ComponentScope>) -> Seq<ComponentScopeView> {
    components.map_values(|component: ComponentScope| component@)
}

/// The views of a list of records.
pub open spec fn spec_records(records: Seq<SentRecord>) -> Seq<SentView> {
    records.map_values(|record: SentRecord| record@)
}

/// What one connection has been told and still has to be told.
pub struct Replication {
    pub(crate) entities: Vec<EntityScope>,
    pub(crate) components: Vec<ComponentScope>,
    pub(crate) in_flight: Vec<SentRecord>,
}

impl Replication {
    /// What this value is to the contracts.
    pub closed spec fn view(&self) -> ReplicationView {
        ReplicationView {
            entities: self.entities@,
            components: spec_scopes(self.components@),
            in_flight: spec_records(self.in_flight@),
        }
    }

    /// The state is sound, and every mask has a width that fits the wire.
    pub closed spec fn wf(&self) -> bool {
        self.masks_wf() && self@.sound()
    }

    /// A connection in order holds a sound state.
    pub proof fn lemma_sound(&self)
        requires
            self.wf(),
        ensures
            self@.sound(),
    {
    }

    /// In a sound state a mask that is not empty belongs to a component
    /// whose entity is in scope.
    pub proof fn lemma_masks_in_scope(&self)
        requires
            self.wf(),
        ensures
            self@.masks_in_scope(),
    {
    }

    /// Every mask has a width that fits the wire.
    pub closed spec fn masks_wf(&self) -> bool {
        &&& forall|j: int|
            0 <= j < self.components@.len() ==> (#[trigger] self.components@[j]).mask.wf()
        &&& forall|j: int|
            0 <= j < self.in_flight@.len() ==> (#[trigger] self.in_flight@[j]).mask.wf()
    }

    /// Nothing in scope, nothing under way.
    pub fn new() -> (replication: Self)
        ensures
            replication.wf(),
            replication@ == (ReplicationView {
                entities: Seq::empty(),
                components: Seq::empty(),
                in_flight: Seq::empty(),
            }),
    {
        let replication = Replication {
            entities: Vec::new(),
            components: Vec::new(),
            in_flight: Vec::new(),
        };
        assert(replication@.components =~= Seq::<ComponentScopeView>::empty());
        assert(replication@.in_flight =~= Seq::<SentView>::empty());
        replication
    }

    pub(crate) fn live_entity(&self, entity: EntityKey) -> (i: usize)
        ensures
            i == spec_live_entity(self@.entities, entity, 0),
            i <= self@.entities.len(),
            i < self@.entities.len() ==> self@.entities[i as int].entity == entity
                && self@.entities[i as int].phase != ScopePhase::Leaving,
    {
        let mut i: usize = 0;
        while i < self.entities.len()
            invariant
                i <= self.entities@.len(),
                spec_live_entity(self.entities@, entity, i as nat) == spec_live_entity(
                    self.entities@,
                    entity,
                    0,
                ),
            decreases self.entities@.len() - i,
        {
            if self.entities[i].entity == entity && !matches!(
                self.entities[i].phase,
                ScopePhase::Leaving
            ) {
                return i;
            }
            i = i + 1;
        }
        i
    }

    pub(crate) fn entity_by_local(&self, local: u16) -> (i: usize)
        ensures
            i == spec_entity_by_local(self@.entities, local, 0),
            i <= self@.entities.len(),
            i < self@.entities.len() ==> self@.entities[i as int].local == local,
    {
        let mut i: usize = 0;
        while i < self.entities.len()
            invariant
                i <= self.entities@.len(),
                spec_entity_by_local(self.entities@, local, i as nat) == spec_entity_by_local(
                    self.entities@,
                    local,
                    0,
                ),
            decreases self.entities@.len() - i,
        {
            if self.entities[i].local == local {
                return i;
            }
            i = i + 1;
        }
        i
    }

    pub(crate) fn live_component(&self, component: ReplicaKey) -> (i: usize)
        ensures
            i == spec_live_component(self@.components, component, 0),
            i <= self@.components.len(),
            i < self@.components.len() ==> self@.components[i as int].component == component
                && self@.components[i as int].phase != ScopePhase::Leaving,
    {
        let mut i: usize = 0;
        let ghost components = self@.components;
        while i < self.components.len()
            invariant
                i <= self.components@.len(),
                components == self@.components,
                spec_live_component(components, component, i as nat) == spec_live_component(
                    components,
                    component,
                    0,
                ),
            decreases self.components@.len() - i,
        {
            assert(components[i as int] == self.components@[i as int]@);
            if self.components[i].component == component && !matches!(
                self.components[i].phase,
                ScopePhase::Leaving
            ) {
                return i;
            }
            i = i + 1;
        }
        i
    }

    pub(crate) fn component_by_local(&self, local: u16) -> (i: usize)
        ensures
            i == spec_component_by_local(self@.components, local, 0),
            i <= self@.components.len(),
            i < self@.components.len() ==> self@.components[i as int].local == local,
    {
        let mut i: usize = 0;
        let ghost components = self@.components;
        while i < self.components.len()
            invariant
                i <= self.components@.len(),
                components == self@.components,
                spec_component_by_local(components, local, i as nat) == spec_component_by_local(
                    components,
                    local,
                    0,
                ),
            decreases self.components@.len() - i,
        {
            assert(components[i as int] == self.components@[i as int]@);
            if self.components[i].local == local {
                return i;
            }
            i = i + 1;
        }
        i
    }

    fn sent_about(&self, about_component: bool, local: u16) -> (found: bool)
        ensures
            found == spec_sent_about(self@.in_flight, about_component, local, 0),
    {
        let mut i: usize = 0;
        let ghost sent = self@.in_flight;
        while i < self.in_flight.len()
            invariant
                i <= self.in_flight@.len(),
                sent == self@.in_flight,
                spec_sent_about(sent, about_component, local, i as nat) == spec_sent_about(
                    sent,
                    about_component,
                    local,
                    0,
                ),
            decreases self.in_flight@.len() - i,
        {
            assert(sent[i as int] == self.in_flight@[i as int]@);
            let kind = self.in_flight[i].kind;
            let component_kind = matches!(kind, SentKind::Add) || matches!(kind, SentKind::Remove)
                || matches!(kind, SentKind::Update);
            if component_kind == about_component && self.in_flight[i].local == local {
                return true;
            }
            i = i + 1;
        }
        false
    }

    fn free_entity_local(&self) -> (r: Option<u16>)
        ensures
            r == self@.free_entity_local(0),
    {
        let mut candidate: u32 = 0;
        while candidate < 65536
            invariant
                candidate <= 65536,
                self@.free_entity_local(candidate as nat) == self@.free_entity_local(0),
            decreases 65536 - candidate,
        {
            let local = candidate as u16;
            if self.entity_by_local(local) >= self.entities.len() && !self.sent_about(false, local) {
                return Some(local);
            }
            candidate = candidate + 1;
        }
        None
    }

    fn free_component_local(&self) -> (r: Option<u16>)
        ensures
            r == self@.free_component_local(0),
    {
        let mut candidate: u32 = 0;
        while candidate < 65536
            invariant
                candidate <= 65536,
                self@.free_component_local(candidate as nat) == self@.free_component_local(0),
            decreases 65536 - candidate,
        {
            let local = candidate as u16;
            if self.component_by_local(local) >= self.components.len() && !self.sent_about(
                true,
                local,
            ) {
                return Some(local);
            }
            candidate = candidate + 1;
        }
        None
    }

    /// Whether `entity` is in scope.
    pub fn has_entity(&self, entity: EntityKey) -> (found: bool)
        ensures
            found == self@.has_entity(entity),
    {
        self.live_entity(entity) < self.entities.len()
    }

    /// Whether `component` is in scope.
    pub fn has_component(&self, component: ReplicaKey) -> (found: bool)
        ensures
            found == self@.has_component(component),
    {
        self.live_component(component) < self.components.len()
    }

    /// The entry of `entity`, if it is in scope.
    pub fn get_entity(&self, entity: EntityKey) -> (r: Option<EntityScope>)
        ensures
            r == (if self@.has_entity(entity) {
                Some(self@.entity(entity))
            } else {
                None
            }),
    {
        let i = self.live_entity(entity);
        if i < self.entities.len() {
            Some(self.entities[i])
        } else {
            None
        }
    }

    /// The properties of `component` that are owed to the connection, if
    /// the component is in scope.
    pub fn get_mask(&self, component: ReplicaKey) -> (r: Option<DiffMask>)
        ensures
            match r {
                Some(mask) => self@.has_component(component) && mask@ == self@.component(
                    component,
                ).mask,
                None => !self@.has_component(component),
            },
    {
        let i = self.live_component(component);
        if i < self.components.len() {
            Some(self.components[i].mask.duplicate())
        } else {
            None
        }
    }

    /// The entity that a command of the user for the local key `local` is
    /// for: the entity in scope that has that key, if the user drives it.
    pub fn command_target(&self, local: u16) -> (r: Option<EntityKey>)
        ensures
            r == spec_command_target(self@, local),
    {
        let at = self.entity_by_local(local);
        if at < self.entities.len() {
            let entry = self.entities[at];
            if !matches!(entry.phase, ScopePhase::Leaving) && (matches!(
                entry.pawn,
                PawnPhase::Owned
            ) || matches!(entry.pawn, PawnPhase::Assigning)) {
                Some(entry.entity)
            } else {
                None
            }
        } else {
            None
        }
    }

    /// Brings a component of `entity` into scope.
    pub fn add_component(&mut self, entity: EntityKey, scoped: ScopedComponent) -> (added: bool)
        requires
            old(self).wf(),
        ensures
            final(self).wf(),
            final(self)@ == old(self)@.add_component(entity, scoped),
            added == old(self)@.can_add_component(entity, scoped.component),
    {
        proof {
            lemma_add_component_sound(self@, entity, scoped);
        }
        let at = self.live_entity(entity);
        if at >= self.entities.len() || self.has_component(scoped.component) {
            return false;
        }
        let owner = self.entities[at].local;
        match self.free_component_local() {
            Some(local) => {
                let mask = DiffMask::new(scoped.mask_bytes);
                assert(mask@ =~= Seq::new(scoped.mask_bytes as nat, |i: int| 0u8));
                self.components.push(
                    ComponentScope {
                        component: scoped.component,
                        owner,
                        local,
                        phase: ScopePhase::Entering,
                        mask,
                    },
                );
                assert(self@.components =~= old(self)@.add_component(entity, scoped).components);
                true
            },
            None => false,
        }
    }

    /// Brings `entity` into scope with `components`.
    pub fn scope_in(&mut self, entity: EntityKey, components: &Vec<ScopedComponent>) -> (added:
        bool)
        requires
            old(self).wf(),
        ensures
            final(self).wf(),
            final(self)@ == old(self)@.scope_in(entity, components@),
            added == old(self)@.can_scope_in(entity),
    {
        proof {
            lemma_scope_in_sound(self@, entity, components@);
        }
        if self.has_entity(entity) {
            return false;
        }
        let local = match self.free_entity_local() {
            Some(local) => local,
            None => {
                return false;
            },
        };
        proof {
            crate::server::replication_view::lemma_free_local(self@, 0);
            crate::server::replication_view::lemma_entity_pushed_sound(
                self@,
                EntityScope { entity, local, phase: ScopePhase::Entering, pawn: PawnPhase::Free },
            );
        }
        self.entities.push(
            EntityScope { entity, local, phase: ScopePhase::Entering, pawn: PawnPhase::Free },
        );
        let ghost start = self@;
        let mut i: usize = 0;
        while i < components.len()
            invariant
                i <= components@.len(),
                self.wf(),
                self@.add_components(entity, components@, i as nat) == start.add_components(
                    entity,
                    components@,
                    0,
                ),
            decreases components@.len() - i,
        {
            self.add_component(entity, components[i]);
            i = i + 1;
        }
        true
    }

    /// Takes `component` out of scope.
    pub fn remove_component(&mut self, component: ReplicaKey)
        requires
            old(self).wf(),
        ensures
            final(self).wf(),
            final(self)@ == old(self)@.remove_component(component),
    {
        proof {
            lemma_remove_component_sound(self@, component);
        }
        let i = self.live_component(component);
        if i < self.components.len() {
            self.components[i].phase = ScopePhase::Leaving;
            self.components[i].mask.clear();
            proof {
                let entry = old(self)@.components[i as int];
                assert(self.components@[i as int].mask@ =~= Seq::new(
                    entry.mask.len(),
                    |k: int| 0u8,
                ));
                assert(self@.components =~= old(self)@.remove_component(component).components);
            }
        }
    }

    /// Takes `entity` out of scope, with its components.
    pub fn scope_out(&mut self, entity: EntityKey)
        requires
            old(self).wf(),
        ensures
            final(self).wf(),
            final(self)@ == old(self)@.scope_out(entity),
    {
        proof {
            lemma_scope_out_sound(self@, entity);
        }
        let i = self.live_entity(entity);
        if i >= self.entities.len() {
            return ;
        }
        let entry = self.entities[i];
        self.entities[i] = EntityScope {
            phase: ScopePhase::Leaving,
            pawn: PawnPhase::Free,
            ..entry
        };
        let ghost all = old(self)@.components;
        let n = self.components.len();
        let mut j: usize = 0;
        while j < n
            invariant
                j <= n,
                n == self.components@.len(),
                n == all.len(),
                self.masks_wf(),
                self.entities@ == old(self).entities@.update(
                    i as int,
                    EntityScope { phase: ScopePhase::Leaving, pawn: PawnPhase::Free, ..entry },
                ),
                self.in_flight@ == old(self).in_flight@,
                all == old(self)@.components,
                forall|k: int|
                    0 <= k < j ==> (#[trigger] self.components@[k])@ == (if all[k].owner
                        == entry.local {
                        ReplicationView::left(all[k])
                    } else {
                        all[k]
                    }),
                forall|k: int| j <= k < n ==> (#[trigger] self.components@[k])@ == all[k],
            decreases n - j,
        {
            if self.components[j].owner == entry.local {
                self.components[j].phase = ScopePhase::Leaving;
                self.components[j].mask.clear();
                assert(self.components@[j as int].mask@ =~= Seq::new(
                    all[j as int].mask.len(),
                    |k: int| 0u8,
                ));
            }
            j = j + 1;
        }
        proof {
            assert(self@.components =~= old(self)@.scope_out(entity).components);
        }
    }

    /// Notes that the properties in `diff` of `component` have changed.
    pub fn mutate(&mut self, component: ReplicaKey, diff: &DiffMask)
        requires
            old(self).wf(),
        ensures
            final(self).wf(),
            final(self)@ == old(self)@.mutate(component, diff@),
    {
        proof {
            lemma_mutate_sound(self@, component, diff@);
        }
        let i = self.live_component(component);
        if i < self.components.len() {
            self.components[i].mask.or_with(diff);
            assert(self@.components =~= old(self)@.mutate(component, diff@).components);
        }
    }

    /// Gives the user `entity` to drive.
    pub fn assign_pawn(&mut self, entity: EntityKey)
        requires
            old(self).wf(),
        ensures
            final(self).wf(),
            final(self)@ == old(self)@.assign_pawn(entity),
    {
        proof {
            lemma_pawn_sound(self@, entity);
        }
        let i = self.live_entity(entity);
        if i < self.entities.len() {
            let entry = self.entities[i];
            if matches!(entry.pawn, PawnPhase::Free) || matches!(entry.pawn, PawnPhase::Releasing) {
                self.entities[i] = EntityScope { pawn: PawnPhase::Assigning, ..entry };
            }
        }
    }

    /// Takes `entity` from the user.
    pub fn unassign_pawn(&mut self, entity: EntityKey)
        requires
            old(self).wf(),
        ensures
            final(self).wf(),
            final(self)@ == old(self)@.unassign_pawn(entity),
    {
        proof {
            lemma_pawn_sound(self@, entity);
        }
        let i = self.live_entity(entity);
        if i < self.entities.len() {
            let entry = self.entities[i];
            if matches!(entry.pawn, PawnPhase::Assigning) || matches!(entry.pawn, PawnPhase::Owned) {
                self.entities[i] = EntityScope { pawn: PawnPhase::Releasing, ..entry };
            }
        }
    }

    /// Forgets the components of the entity that the client knew under
    /// `owner`.
    fn forget_components(&mut self, owner: u16)
        requires
            old(self).masks_wf(),
        ensures
            final(self).masks_wf(),
            final(self).entities@ == old(self).entities@,
            final(self).in_flight@ == old(self).in_flight@,
            final(self)@.components == old(self)@.components.filter(
                |c: ComponentScopeView| c.owner != owner,
            ),
    {
        let ghost all = old(self)@.components;
        let ghost keep = |c: ComponentScopeView| c.owner != owner;
        let mut kept: usize = 0;
        let ghost mut seen: nat = 0;
        assert(all.take(0).filter(keep) =~= Seq::<ComponentScopeView>::empty()) by {
            reveal(Seq::filter);
        }
        while kept < self.components.len()
            invariant
                kept <= self.components@.len(),
                self.masks_wf(),
                self.entities@ == old(self).entities@,
                self.in_flight@ == old(self).in_flight@,
                all == old(self)@.components,
                keep == |c: ComponentScopeView| c.owner != owner,
                seen <= all.len(),
                seen - kept == all.len() - self.components@.len(),
                self@.components.take(kept as int) == all.take(seen as int).filter(keep),
                self@.components.skip(kept as int) == all.skip(seen as int),
            decreases self.components@.len() - kept,
        {
            let ghost before = self@.components;
            assert(before.skip(kept as int)[0] == before[kept as int]);
            assert(before[kept as int] == all[seen as int]);
            assert(before[kept as int] == self.components@[kept as int]@);
            proof {
                reveal(Seq::filter);
                assert(all.take(seen as int + 1).drop_last() =~= all.take(seen as int));
            }
            if self.components[kept].owner == owner {
                self.components.remove(kept);
                proof {
                    assert(self@.components =~= before.remove(kept as int));
                    assert(self@.components.take(kept as int) =~= before.take(kept as int));
                    assert(before.skip(kept + 1) =~= before.skip(kept as int).skip(1));
                    assert(all.skip(seen as int + 1) =~= all.skip(seen as int).skip(1));
                    assert(self@.components.skip(kept as int) =~= before.skip(kept + 1));
                }
            } else {
                proof {
                    assert(before.take(kept + 1) =~= before.take(kept as int).push(
                        before[kept as int],
                    ));
                    assert(before.skip(kept + 1) =~= before.skip(kept as int).skip(1));
                    assert(all.skip(seen as int + 1) =~= all.skip(seen as int).skip(1));
                }
                kept = kept + 1;
            }
            proof {
                seen = seen + 1;
            }
        }
        proof {
            assert(all.take(all.len() as int) =~= all);
            assert(self@.components.take(kept as int) =~= self@.components);
        }
    }

    /// Settles the record at place `index` as confirmed.
    fn confirm(&mut self, index: usize)
        requires
            old(self).masks_wf(),
            index < old(self)@.in_flight.len(),
        ensures
            final(self).masks_wf(),
            final(self)@ == old(self)@.confirmed(old(self)@.in_flight[index as int]),
    {
        let kind = self.in_flight[index].kind;
        let local = self.in_flight[index].local;
        let ghost record = self@.in_flight[index as int];
        assert(record == self.in_flight@[index as int]@);
        let ghost after = old(self)@.confirmed(record);
        match kind {
            SentKind::Add => {
                let i = self.component_by_local(local);
                if i < self.components.len() && matches!(
                    self.components[i].phase,
                    ScopePhase::Entering
                ) {
                    self.components[i].phase = ScopePhase::Active;
                }
                assert(self@.components =~= after.components);
            },
            SentKind::Remove => {
                let i = self.component_by_local(local);
                if i < self.components.len() && matches!(
                    self.components[i].phase,
                    ScopePhase::Leaving
                ) {
                    self.components.remove(i);
                }
                assert(self@.components =~= after.components);
            },
            SentKind::Update => {},
            SentKind::Create => {
                let i = self.entity_by_local(local);
                if i < self.entities.len() && matches!(self.entities[i].phase, ScopePhase::Entering) {
                    let entry = self.entities[i];
                    self.entities[i] = EntityScope { phase: ScopePhase::Active, ..entry };
                }
            },
            SentKind::Delete => {
                let i = self.entity_by_local(local);
                if i < self.entities.len() && matches!(self.entities[i].phase, ScopePhase::Leaving) {
                    self.entities.remove(i);
                    self.forget_components(local);
                }
            },
            SentKind::Assign => {
                let i = self.entity_by_local(local);
                if i < self.entities.len() && matches!(self.entities[i].pawn, PawnPhase::Assigning) {
                    let entry = self.entities[i];
                    self.entities[i] = EntityScope { pawn: PawnPhase::Owned, ..entry };
                }
            },
            SentKind::Unassign => {
                let i = self.entity_by_local(local);
                if i < self.entities.len() && matches!(self.entities[i].pawn, PawnPhase::Releasing) {
                    let entry = self.entities[i];
                    self.entities[i] = EntityScope { pawn: PawnPhase::Free, ..entry };
                }
            },
        }
    }

    /// Settles the record at place `index` as lost.
    fn lose(&mut self, index: usize)
        requires
            old(self).masks_wf(),
            index < old(self)@.in_flight.len(),
        ensures
            final(self).masks_wf(),
            final(self)@ == old(self)@.lost(old(self)@.in_flight[index as int]),
    {
        let kind = self.in_flight[index].kind;
        let local = self.in_flight[index].local;
        let ghost record = self@.in_flight[index as int];
        assert(record == self.in_flight@[index as int]@);
        if matches!(kind, SentKind::Update) {
            let i = self.component_by_local(local);
            if i < self.components.len() && matches!(self.components[i].phase, ScopePhase::Active) {
                let mask = self.in_flight[index].mask.duplicate();
                self.components[i].mask.or_with(&mask);
                assert(self@.components =~= old(self)@.lost(record).components);
            }
        }
    }

    /// Takes in what the transport tells of the packet `packet`: that it
    /// has arrived (`acked`), or that it is given up as lost.
    ///
    /// What has arrived is known to the client from now on: entities and
    /// components that were entering are active, those that were leaving
    /// are forgotten. Of what is lost, the properties that an update
    /// carried are owed again; everything else is written again anyway
    /// until it arrives.
    pub fn notify(&mut self, packet: u16, acked: bool)
        requires
            old(self).wf(),
        ensures
            final(self).wf(),
            final(self)@ == old(self)@.settle(packet, acked),
    {
        proof {
            lemma_settle_sound(self@, packet, acked);
        }
        let n = self.in_flight.len();
        let mut i: usize = 0;
        while i < n
            invariant
                i <= n,
                n == self.in_flight@.len(),
                self.masks_wf(),
                self@.in_flight == old(self)@.in_flight,
                self@.settle_from(packet, acked, i as nat) == old(self)@.settle_from(
                    packet,
                    acked,
                    0,
                ),
            decreases n - i,
        {
            let ghost before = self@;
            if self.in_flight[i].packet == packet {
                if acked {
                    self.confirm(i);
                } else {
                    self.lose(i);
                }
            }
            proof {
                assert(before.in_flight[i as int] == self.in_flight@[i as int]@);
                assert(self@.in_flight =~= before.in_flight);
                let record = before.in_flight[i as int];
                let next = if record.packet != packet {
                    before
                } else if acked {
                    before.confirmed(record)
                } else {
                    before.lost(record)
                };
                assert(self@ == (ReplicationView { in_flight: before.in_flight, ..next }));
            }
            i = i + 1;
        }
        let ghost settled = self@;
        let ghost all = settled.in_flight;
        let ghost keep = |record: SentView| record.packet != packet;
        let mut kept: usize = 0;
        let ghost mut seen: nat = 0;
        assert(all.take(0).filter(keep) =~= Seq::<SentView>::empty()) by {
            reveal(Seq::filter);
        }
        while kept < self.in_flight.len()
            invariant
                kept <= self.in_flight@.len(),
                self.masks_wf(),
                self.entities@ == settled.entities,
                self@.components == settled.components,
                all == settled.in_flight,
                keep == |record: SentView| record.packet != packet,
                seen <= all.len(),
                seen - kept == all.len() - self.in_flight@.len(),
                self@.in_flight.take(kept as int) == all.take(seen as int).filter(keep),
                self@.in_flight.skip(kept as int) == all.skip(seen as int),
            decreases self.in_flight@.len() - kept,
        {
            let ghost before = self@.in_flight;
            assert(before.skip(kept as int)[0] == before[kept as int]);
            assert(before[kept as int] == all[seen as int]);
            assert(before[kept as int] == self.in_flight@[kept as int]@);
            proof {
                reveal(Seq::filter);
                assert(all.take(seen as int + 1).drop_last() =~= all.take(seen as int));
            }
            if self.in_flight[kept].packet == packet {
                self.in_flight.remove(kept);
                proof {
                    assert(self@.in_flight =~= before.remove(kept as int));
                    assert(self@.in_flight.take(kept as int) =~= before.take(kept as int));
                    assert(before.skip(kept + 1) =~= before.skip(kept as int).skip(1));
                    assert(all.skip(seen as int + 1) =~= all.skip(seen as int).skip(1));
                    assert(self@.in_flight.skip(kept as int) =~= before.skip(kept + 1));
                }
            } else {
                proof {
                    assert(before.take(kept + 1) =~= before.take(kept as int).push(
                        before[kept as int],
                    ));
                    assert(before.skip(kept + 1) =~= before.skip(kept as int).skip(1));
                    assert(all.skip(seen as int + 1) =~= all.skip(seen as int).skip(1));
                }
                kept = kept + 1;
            }
            proof {
                seen = seen + 1;
            }
        }
        proof {
            assert(all.take(all.len() as int) =~= all);
            assert(self@.in_flight.take(kept as int) =~= self@.in_flight);
        }
    }
}

/// The record of something that is sent without a mask.
fn plain_record(packet: u16, kind: SentKind, local: u16) -> (record: SentRecord)
    ensures
        record@ == spec_sent(packet, kind, local),
        record.mask.wf(),
{
    let mask = DiffMask::new(0);
    assert(mask@ =~= Seq::<u8>::empty());
    SentRecord { packet, kind, local, mask }
}

/// A section under construction.
struct Section {
    body: Vec<u8>,
    count: u8,
    full: bool,
    limit: usize,
}

impl Replication {
    /// The section that is being written, seen together with what the
    /// connection remembers.
    closed spec fn writing(&self, section: &Section) -> Writing {
        Writing {
            view: self@,
            body: section.body@,
            count: section.count as nat,
            full: section.full,
        }
    }

    /// Offers a record to the section.
    fn emit(&mut self, section: &mut Section, encoded: &Vec<u8>, records: &mut Vec<SentRecord>)
        -> (written: bool)
        requires
            old(self).masks_wf(),
            forall|k: int| 0 <= k < old(records)@.len() ==> (#[trigger] old(records)@[k]).mask.wf(),
        ensures
            final(self).masks_wf(),
            final(section).limit == old(section).limit,
            final(self).writing(final(section)) == old(self).writing(old(section)).emit(
                old(section).limit as nat,
                encoded@,
                spec_records(old(records)@),
            ),
            written == old(self).writing(old(section)).fits(old(section).limit as nat, encoded@),
    {
        if section.full || section.count == 255 || encoded.len() > section.limit
            || section.body.len() > section.limit - encoded.len() {
            section.full = true;
            return false;
        }
        write_bytes(&mut section.body, encoded);
        section.count = section.count + 1;
        let ghost added = spec_records(records@);
        let ghost before = self@.in_flight;
        self.in_flight.append(records);
        assert(self@.in_flight =~= before + added);
        true
    }

    /// Announces the entity at place `i`, which is entering.
    fn write_create<P: ProtocolType>(
        &mut self,
        section: &mut Section,
        world: &EntityStore<P>,
        packet: u16,
        i: usize,
    )
        requires
            old(self).masks_wf(),
            i < old(self)@.entities.len(),
            old(self)@.entities[i as int].phase == ScopePhase::Entering,
        ensures
            final(self).masks_wf(),
            final(section).limit == old(section).limit,
            final(self)@.entities == old(self)@.entities,
            final(self)@.components == old(self)@.components,
            ({
                let entry = old(self)@.entities[i as int];
                let gathered = spec_gather(
                    old(self)@.components,
                    world@.components,
                    entry.local,
                    packet,
                    0,
                    Gathered {
                        components: Seq::empty(),
                        records: seq![spec_sent(packet, SentKind::Create, entry.local)],
                    },
                );
                final(self).writing(final(section)) == old(self).writing(old(section)).emit(
                    old(section).limit as nat,
                    spec_encode_create(entry.local, gathered.components),
                    gathered.records,
                )
            }),
    {
        let entry = self.entities[i];
        let mut records: Vec<SentRecord> = Vec::new();
        records.push(
            plain_record(packet, SentKind::Create, entry.local),
        );
        let mut bodies: Vec<u8> = Vec::new();
        let mut gathered: u8 = 0;
        let ghost mut listed: Seq<NewComponent> = Seq::empty();
        let ghost scopes = self@.components;
        let ghost start = Gathered {
            components: Seq::empty(),
            records: seq![spec_sent(packet, SentKind::Create, entry.local)],
        };
        assert(spec_records(records@) =~= start.records);
        assert(spec_records(records@)[0].mask =~= Seq::<u8>::empty());
        let mut j: usize = 0;
        while j < self.components.len()
            invariant
                j <= self.components@.len(),
                scopes == self@.components,
                gathered == listed.len(),
                bodies@ == spec_encode_components(listed, 0),
                forall|k: int| 0 <= k < records@.len() ==> (#[trigger] records@[k]).mask.wf(),
                spec_gather(
                    scopes,
                    world@.components,
                    entry.local,
                    packet,
                    j as nat,
                    Gathered { components: listed, records: spec_records(records@) },
                ) == spec_gather(scopes, world@.components, entry.local, packet, 0, start),
            decreases self.components@.len() - j,
        {
            assert(scopes[j as int] == self.components@[j as int]@);
            let scope = &self.components[j];
            if scope.owner == entry.local && matches!(scope.phase, ScopePhase::Entering)
                && gathered < 255 {
                match world.get_component(scope.component) {
                    Some(replica) => {
                        let ghost component = NewComponent { key: scope.local, replica: replica@ };
                        let ghost sofar = spec_records(records@);
                        write_component(&mut bodies, scope.local, replica);
                        records.push(
                            plain_record(packet, SentKind::Add, scope.local),
                        );
                        gathered = gathered + 1;
                        proof {
                            lemma_encode_components_push(listed, component, 0);
                            listed = listed.push(component);
                            assert(spec_records(records@) =~= sofar.push(
                                spec_sent(packet, SentKind::Add, scope.local),
                            ));
                        }
                    },
                    None => {},
                }
            }
            j = j + 1;
        }
        let mut encoded: Vec<u8> = Vec::new();
        write_keyed(&mut encoded, ReplicaActionType::CreateEntity, entry.local);
        write_u8(&mut encoded, gathered);
        write_bytes(&mut encoded, &bodies);
        assert(encoded@ =~= spec_encode_create(entry.local, listed));
        self.emit(section, &encoded, &mut records);
    }

    /// Writes the entity section of the packet `packet_index` for this
    /// connection: one byte with the number of records, then the records,
    /// within `mtu` bytes in all; and remembers what was written, so that
    /// it can be settled when the transport tells what became of the
    /// packet. Returns the section.
    ///
    /// A record that does not fit closes the section; it and all that
    /// follows stays owed. With an `mtu` of 0 nothing is written.
    pub fn write_section<P: ProtocolType>(
        &mut self,
        world: &EntityStore<P>,
        packet_index: u16,
        mtu: usize,
    ) -> (out: Vec<u8>)
        requires
            old(self).wf(),
        ensures
            final(self).wf(),
            mtu == 0 ==> out@ == Seq::<u8>::empty() && final(self)@ == old(self)@,
            mtu > 0 ==> ({
                let written = old(self)@.write_section(
                    world@.components,
                    packet_index,
                    (mtu - 1) as nat,
                );
                &&& final(self)@ == written.view
                &&& out@ == seq![written.count as u8] + written.body
                &&& written.count <= 255
            }),
    {
        proof {
            if mtu > 0 {
                lemma_write_section_shape(
                    self@,
                    world@.components,
                    packet_index,
                    (mtu - 1) as nat,
                );
                lemma_shape_sound(
                    self@,
                    self@.write_section(world@.components, packet_index, (mtu - 1) as nat).view,
                );
            }
        }
        let mut out: Vec<u8> = Vec::new();
        if mtu == 0 {
            return out;
        }
        let mut section = Section { body: Vec::new(), count: 0, full: false, limit: mtu - 1 };
        let ghost limit = (mtu - 1) as nat;
        let ghost blank = self.writing(&section);
        let ghost components = world@.components;

        // the new entities
        let n = self.entities.len();
        let mut i: usize = 0;
        while i < n
            invariant
                i <= n,
                n == self@.entities.len(),
                self.masks_wf(),
                section.limit == limit,
                components == world@.components,
                self.writing(&section).creates_from(components, packet_index, limit, i as nat)
                    == blank.creates_from(components, packet_index, limit, 0),
            decreases n - i,
        {
            if matches!(self.entities[i].phase, ScopePhase::Entering) {
                self.write_create(&mut section, world, packet_index, i);
            }
            i = i + 1;
        }
        let ghost created = self.writing(&section);

        // the components that come and go
        let m = self.components.len();
        let mut j: usize = 0;
        while j < m
            invariant
                j <= m,
                m == self@.components.len(),
                n == self@.entities.len(),
                self.masks_wf(),
                section.limit == limit,
                components == world@.components,
                self.writing(&section).structure_from(components, packet_index, limit, j as nat)
                    == created.structure_from(components, packet_index, limit, 0),
            decreases m - j,
        {
            let ghost now = self.writing(&section);
            assert(now.view.components[j as int] == self.components@[j as int]@);
            let owner = self.entity_by_local(self.components[j].owner);
            if owner < self.entities.len() && matches!(self.entities[owner].phase, ScopePhase::Active) {
                let local = self.components[j].local;
                let entity_local = self.components[j].owner;
                if matches!(self.components[j].phase, ScopePhase::Entering) {
                    match world.get_component(self.components[j].component) {
                        Some(replica) => {
                            let mut encoded: Vec<u8> = Vec::new();
                            write_add_component(&mut encoded, entity_local, local, replica);
                            let mut records: Vec<SentRecord> = Vec::new();
                            records.push(
                                plain_record(packet_index, SentKind::Add, local),
                            );
                            assert(spec_records(records@) =~= seq![
                                spec_sent(packet_index, SentKind::Add, local),
                            ]);
                            self.emit(&mut section, &encoded, &mut records);
                        },
                        None => {},
                    }
                } else if matches!(self.components[j].phase, ScopePhase::Leaving) {
                    let mut encoded: Vec<u8> = Vec::new();
                    write_keyed(&mut encoded, ReplicaActionType::DeleteComponent, local);
                    let mut records: Vec<SentRecord> = Vec::new();
                    records.push(
                        plain_record(packet_index, SentKind::Remove, local),
                    );
                    assert(spec_records(records@) =~= seq![
                        spec_sent(packet_index, SentKind::Remove, local),
                    ]);
                    self.emit(&mut section, &encoded, &mut records);
                }
            }
            proof {
                let after = self.writing(&section);
                assert(after.view.components == now.view.components);
                assert(after.view.entities == now.view.entities);
            }
            j = j + 1;
        }
        let ghost structured = self.writing(&section);

        // the updates
        let mut j: usize = 0;
        while j < m
            invariant
                j <= m,
                m == self@.components.len(),
                n == self@.entities.len(),
                self.masks_wf(),
                section.limit == limit,
                components == world@.components,
                self.writing(&section).updates_from(components, packet_index, limit, j as nat)
                    == structured.updates_from(components, packet_index, limit, 0),
            decreases m - j,
        {
            let ghost now = self.writing(&section);
            assert(now.view.components[j as int] == self.components@[j as int]@);
            let owner = self.entity_by_local(self.components[j].owner);
            if owner < self.entities.len() && matches!(self.entities[owner].phase, ScopePhase::Active)
                && matches!(self.components[j].phase, ScopePhase::Active)
                && !self.components[j].mask.is_clear() {
                match world.get_component(self.components[j].component) {
                    Some(replica) => {
                        let local = self.components[j].local;
                        if self.components[j].mask.byte_number() == replica.get_diff_mask_size() {
                            let mut encoded: Vec<u8> = Vec::new();
                            write_update_component(
                                &mut encoded,
                                local,
                                &self.components[j].mask,
                                replica,
                            );
                            let mut records: Vec<SentRecord> = Vec::new();
                            records.push(
                                SentRecord {
                                    packet: packet_index,
                                    kind: SentKind::Update,
                                    local,
                                    mask: self.components[j].mask.duplicate(),
                                },
                            );
                            assert(spec_records(records@) =~= seq![
                                SentView {
                                    packet: packet_index,
                                    kind: SentKind::Update,
                                    local,
                                    mask: now.view.components[j as int].mask,
                                },
                            ]);
                            if self.emit(&mut section, &encoded, &mut records) {
                                let ghost emitted = self@.components;
                                self.components[j].mask.clear();
                                proof {
                                    let entry = now.view.components[j as int];
                                    assert(self.components@[j as int].mask@ =~= Seq::new(
                                        entry.mask.len(),
                                        |k: int| 0u8,
                                    ));
                                    assert(self@.components =~= emitted.update(
                                        j as int,
                                        ComponentScopeView {
                                            mask: Seq::new(entry.mask.len(), |k: int| 0u8),
                                            ..entry
                                        },
                                    ));
                                }
                            }
                        }
                    },
                    None => {},
                }
            }
            j = j + 1;
        }
        let ghost updated = self.writing(&section);

        // the pawns
        let mut i: usize = 0;
        while i < n
            invariant
                i <= n,
                n == self@.entities.len(),
                self.masks_wf(),
                section.limit == limit,
                self.writing(&section).pawns_from(packet_index, limit, i as nat)
                    == updated.pawns_from(packet_index, limit, 0),
            decreases n - i,
        {
            let entry = self.entities[i];
            if matches!(entry.phase, ScopePhase::Active) {
                if matches!(entry.pawn, PawnPhase::Assigning) {
                    let mut encoded: Vec<u8> = Vec::new();
                    write_keyed(&mut encoded, ReplicaActionType::AssignPawnEntity, entry.local);
                    let mut records: Vec<SentRecord> = Vec::new();
                    records.push(
                        plain_record(packet_index, SentKind::Assign, entry.local),
                    );
                    assert(spec_records(records@) =~= seq![
                        spec_sent(packet_index, SentKind::Assign, entry.local),
                    ]);
                    self.emit(&mut section, &encoded, &mut records);
                } else if matches!(entry.pawn, PawnPhase::Releasing) {
                    let mut encoded: Vec<u8> = Vec::new();
                    write_keyed(&mut encoded, ReplicaActionType::UnassignPawnEntity, entry.local);
                    let mut records: Vec<SentRecord> = Vec::new();
                    records.push(
                        plain_record(packet_index, SentKind::Unassign, entry.local),
                    );
                    assert(spec_records(records@) =~= seq![
                        spec_sent(packet_index, SentKind::Unassign, entry.local),
                    ]);
                    self.emit(&mut section, &encoded, &mut records);
                }
            }
            i = i + 1;
        }
        let ghost assigned = self.writing(&section);

        // the entities that are gone
        let mut i: usize = 0;
        while i < n
            invariant
                i <= n,
                n == self@.entities.len(),
                self.masks_wf(),
                section.limit == limit,
                self.writing(&section).deletes_from(packet_index, limit, i as nat)
                    == assigned.deletes_from(packet_index, limit, 0),
            decreases n - i,
        {
            let entry = self.entities[i];
            if matches!(entry.phase, ScopePhase::Leaving) {
                let mut encoded: Vec<u8> = Vec::new();
                write_keyed(&mut encoded, ReplicaActionType::DeleteEntity, entry.local);
                let mut records: Vec<SentRecord> = Vec::new();
                records.push(
                    plain_record(packet_index, SentKind::Delete, entry.local),
                );
                assert(spec_records(records@) =~= seq![
                    spec_sent(packet_index, SentKind::Delete, entry.local),
                ]);
                self.emit(&mut section, &encoded, &mut records);
            }
            i = i + 1;
        }
        write_u8(&mut out, section.count);
        write_bytes(&mut out, &section.body);
        proof {
            assert(out@ =~= seq![section.count] + section.body@);
        }
        out
    }
}

} // verus!
