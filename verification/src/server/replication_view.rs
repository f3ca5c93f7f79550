//! What one connection has been told and still has to be told, as
//! mathematics.

use vstd::prelude::*;
use crate::diff_mask::{spec_is_clear, spec_or};
use crate::server::keys::{ReplicaKey, EntityKey};

verus! {

/// Where something in the scope of a connection stands.
#[derive(Clone, Copy, Debug, PartialEq, Eq, Structural)]
pub enum ScopePhase {
    /// It has come into scope; the client has not confirmed that it knows.
    Entering,
    /// The client knows of it.
    Active,
    /// It has left scope; the client has not confirmed that it knows.
    Leaving,
}

/// Whether the user of a connection drives an entity.
#[derive(Clone, Copy, Debug, PartialEq, Eq, Structural)]
pub enum PawnPhase {
    /// The user does not drive it.
    Free,
    /// The user is to drive it; the client has not confirmed that it knows.
    Assigning,
    /// The user drives it.
    Owned,
    /// The user is to drive it no longer; the client has not confirmed.
    Releasing,
}

/// An entity in the scope of a connection.
#[derive(Clone, Copy, Debug, PartialEq, Eq, Structural)]
pub struct EntityScope {
    /// The entity's key in the world.
    pub entity: EntityKey,
    /// The key under which the client knows it.
    pub local: u16,
    pub phase: ScopePhase,
    pub pawn: PawnPhase,
}

/// A component in the scope of a connection.
pub struct ComponentScopeView {
    /// The component's key in the world.
    pub component: ReplicaKey,
    /// The key under which the client knows the entity that owns it.
    pub owner: u16,
    /// The key under which the client knows it.
    pub local: u16,
    pub phase: ScopePhase,
    /// The properties that have changed and have not been sent.
    pub mask: Seq<u8>,
}

/// What a record that was sent said.
#[derive(Clone, Copy, Debug, PartialEq, Eq, Structural)]
pub enum SentKind {
    Create,
    Delete,
    Add,
    Remove,
    Update,
    Assign,
    Unassign,
}

/// A record that was sent in a packet that has not been confirmed or given
/// up yet.
pub struct SentView {
    /// The number of the packet.
    pub packet: u16,
    pub kind: SentKind,
    /// The local key of the entity or component that the record is about.
    pub local: u16,
    /// For an update, the properties that it carried.
    pub mask: Seq<u8>,
}

/// A component that comes into scope: its key, and the width of its diff
/// mask.
#[derive(Clone, Copy, Debug, PartialEq, Eq, Structural)]
pub struct ScopedComponent {
    pub component: ReplicaKey,
    pub mask_bytes: u8,
}

/// Whether a record of this kind is about a component, not an entity.
pub open spec fn spec_about_component(kind: SentKind) -> bool {
    kind == SentKind::Add || kind == SentKind::Remove || kind == SentKind::Update
}

/// The place of the first of `entities[from..]` that is the entry of
/// `entity` in scope, or the number of entities.
pub open spec fn spec_live_entity(entities: Seq<EntityScope>, entity: EntityKey, from: nat) -> int
    decreases entities.len() - from,
{
    if from >= entities.len() {
        entities.len() as int
    } else if entities[from as int].entity == entity && entities[from as int].phase
        != ScopePhase::Leaving {
        from as int
    } else {
        spec_live_entity(entities, entity, from + 1)
    }
}

/// The place of the first of `entities[from..]` with the local key `local`,
/// or the number of entities.
pub open spec fn spec_entity_by_local(entities: Seq<EntityScope>, local: u16, from: nat) -> int
    decreases entities.len() - from,
{
    if from >= entities.len() {
        entities.len() as int
    } else if entities[from as int].local == local {
        from as int
    } else {
        spec_entity_by_local(entities, local, from + 1)
    }
}

/// The place of the first of `components[from..]` that is the entry of
/// `component` in scope, or the number of components.
pub open spec fn spec_live_component(
    components: Seq<ComponentScopeView>,
    component: ReplicaKey,
    from: nat,
) -> int
    decreases components.len() - from,
{
    if from >= components.len() {
        components.len() as int
    } else if components[from as int].component == component && components[from as int].phase
        != ScopePhase::Leaving {
        from as int
    } else {
        spec_live_component(components, component, from + 1)
    }
}

/// The place of the first of `components[from..]` with the local key
/// `local`, or the number of components.
pub open spec fn spec_component_by_local(
    components: Seq<ComponentScopeView>,
    local: u16,
    from: nat,
) -> int
    decreases components.len() - from,
{
    if from >= components.len() {
        components.len() as int
    } else if components[from as int].local == local {
        from as int
    } else {
        spec_component_by_local(components, local, from + 1)
    }
}

/// Whether one of `sent[from..]` is about the local key `local` of a
/// component, or of an entity.
pub open spec fn spec_sent_about(
    sent: Seq<SentView>,
    about_component: bool,
    local: u16,
    from: nat,
) -> bool
    decreases sent.len() - from,
{
    if from >= sent.len() {
        false
    } else if spec_about_component(sent[from as int].kind) == about_component
        && sent[from as int].local == local {
        true
    } else {
        spec_sent_about(sent, about_component, local, from + 1)
    }
}

/// A search finds a place in the list or its end, and what it finds is
/// what was looked for.
pub proof fn lemma_found(
    entities: Seq<EntityScope>,
    components: Seq<ComponentScopeView>,
    entity: EntityKey,
    component: ReplicaKey,
    local: u16,
    from: nat,
)
    ensures
        from <= entities.len() ==> from <= spec_live_entity(entities, entity, from)
            <= entities.len(),
        from <= entities.len() ==> from <= spec_entity_by_local(entities, local, from)
            <= entities.len(),
        from <= components.len() ==> from <= spec_live_component(components, component, from)
            <= components.len(),
        from <= components.len() ==> from <= spec_component_by_local(components, local, from)
            <= components.len(),
        spec_live_entity(entities, entity, from) < entities.len() ==> entities[spec_live_entity(
            entities,
            entity,
            from,
        )].entity == entity && entities[spec_live_entity(entities, entity, from)].phase
            != ScopePhase::Leaving,
        spec_entity_by_local(entities, local, from) < entities.len()
            ==> entities[spec_entity_by_local(entities, local, from)].local == local,
        spec_live_component(components, component, from) < components.len()
            ==> components[spec_live_component(components, component, from)].component
            == component && components[spec_live_component(components, component, from)].phase
            != ScopePhase::Leaving,
        spec_component_by_local(components, local, from) < components.len()
            ==> components[spec_component_by_local(components, local, from)].local == local,
    decreases entities.len() + components.len() - from,
{
    if from < entities.len() || from < components.len() {
        lemma_found(entities, components, entity, component, local, from + 1);
    }
}

/// The entity that a command of a user for the local key `local` is for:
/// the entity in the user's scope that has that key, if the user drives it.
pub open spec fn spec_command_target(replication: ReplicationView, local: u16) -> Option<
    EntityKey,
> {
    let i = spec_entity_by_local(replication.entities, local, 0);
    if i < replication.entities.len() && replication.entities[i].phase != ScopePhase::Leaving && (
    replication.entities[i].pawn == PawnPhase::Owned || replication.entities[i].pawn
        == PawnPhase::Assigning) {
        Some(replication.entities[i].entity)
    } else {
        None
    }
}

/// What one connection has been told and still has to be told.
pub struct ReplicationView {
    /// The entities in scope, in the order in which they came.
    pub entities: Seq<EntityScope>,
    /// The components in scope, in the order in which they came.
    pub components: Seq<ComponentScopeView>,
    /// The records of the packets that are under way, oldest first.
    pub in_flight: Seq<SentView>,
}

impl ReplicationView {
    /// Whether `entity` is in scope.
    pub open spec fn has_entity(self, entity: EntityKey) -> bool {
        spec_live_entity(self.entities, entity, 0) < self.entities.len()
    }

    /// The entry of `entity`, which is in scope.
    pub open spec fn entity(self, entity: EntityKey) -> EntityScope {
        self.entities[spec_live_entity(self.entities, entity, 0)]
    }

    /// Whether `component` is in scope.
    pub open spec fn has_component(self, component: ReplicaKey) -> bool {
        spec_live_component(self.components, component, 0) < self.components.len()
    }

    /// The entry of `component`, which is in scope.
    pub open spec fn component(self, component: ReplicaKey) -> ComponentScopeView {
        self.components[spec_live_component(self.components, component, 0)]
    }

    /// Whether the local key `local` is taken: an entity has it, or a record
    /// under way is about it.
    pub open spec fn entity_local_taken(self, local: u16) -> bool {
        spec_entity_by_local(self.entities, local, 0) < self.entities.len() || spec_sent_about(
            self.in_flight,
            false,
            local,
            0,
        )
    }

    /// Whether the local key `local` is taken: a component has it, or a
    /// record under way is about it.
    pub open spec fn component_local_taken(self, local: u16) -> bool {
        spec_component_by_local(self.components, local, 0) < self.components.len()
            || spec_sent_about(self.in_flight, true, local, 0)
    }

    /// The least local key from `candidate` on that no entity has taken.
    pub open spec fn free_entity_local(self, candidate: nat) -> Option<u16>
        decreases 65536 - candidate,
    {
        if candidate >= 65536 {
            None
        } else if !self.entity_local_taken(candidate as u16) {
            Some(candidate as u16)
        } else {
            self.free_entity_local(candidate + 1)
        }
    }

    /// The least local key from `candidate` on that no component has taken.
    pub open spec fn free_component_local(self, candidate: nat) -> Option<u16>
        decreases 65536 - candidate,
    {
        if candidate >= 65536 {
            None
        } else if !self.component_local_taken(candidate as u16) {
            Some(candidate as u16)
        } else {
            self.free_component_local(candidate + 1)
        }
    }

    /// Whether `component` can come into scope as a component of `entity`:
    /// the entity is in scope, the component is not, and a local key is
    /// free.
    pub open spec fn can_add_component(self, entity: EntityKey, component: ReplicaKey) -> bool {
        &&& self.has_entity(entity)
        &&& !self.has_component(component)
        &&& self.free_component_local(0) is Some
    }

    /// The state after `scoped` has come into scope as a component of
    /// `entity`, with a clear mask: the client is to be told of it.
    pub open spec fn add_component(self, entity: EntityKey, scoped: ScopedComponent) -> Self {
        if self.can_add_component(entity, scoped.component) {
            ReplicationView {
                components: self.components.push(
                    ComponentScopeView {
                        component: scoped.component,
                        owner: self.entity(entity).local,
                        local: self.free_component_local(0)->0,
                        phase: ScopePhase::Entering,
                        mask: Seq::new(scoped.mask_bytes as nat, |i: int| 0u8),
                    },
                ),
                ..self
            }
        } else {
            self
        }
    }

    /// The state after `components[from..]` have come into scope as
    /// components of `entity`.
    pub open spec fn add_components(
        self,
        entity: EntityKey,
        components: Seq<ScopedComponent>,
        from: nat,
    ) -> Self
        decreases components.len() - from,
    {
        if from >= components.len() {
            self
        } else {
            self.add_component(entity, components[from as int]).add_components(
                entity,
                components,
                from + 1,
            )
        }
    }

    /// Whether `entity` can come into scope: it is not in scope, and a local
    /// key is free.
    pub open spec fn can_scope_in(self, entity: EntityKey) -> bool {
        !self.has_entity(entity) && self.free_entity_local(0) is Some
    }

    /// The state after `entity` has come into scope with `components`: the
    /// client is to be told of it.
    pub open spec fn scope_in(self, entity: EntityKey, components: Seq<ScopedComponent>) -> Self {
        if self.can_scope_in(entity) {
            (ReplicationView {
                entities: self.entities.push(
                    EntityScope {
                        entity,
                        local: self.free_entity_local(0)->0,
                        phase: ScopePhase::Entering,
                        pawn: PawnPhase::Free,
                    },
                ),
                ..self
            }).add_components(entity, components, 0)
        } else {
            self
        }
    }

    /// A component that has left scope: nothing is owed for it any more
    /// but the word that it is gone.
    pub open spec fn left(entry: ComponentScopeView) -> ComponentScopeView {
        ComponentScopeView {
            phase: ScopePhase::Leaving,
            mask: Seq::new(entry.mask.len(), |k: int| 0u8),
            ..entry
        }
    }

    /// The state after `component` has left scope: the client is to be told
    /// that it is gone.
    pub open spec fn remove_component(self, component: ReplicaKey) -> Self {
        if self.has_component(component) {
            let i = spec_live_component(self.components, component, 0);
            ReplicationView {
                components: self.components.update(i, Self::left(self.components[i])),
                ..self
            }
        } else {
            self
        }
    }

    /// The state after `entity` has left scope: its components leave with
    /// it, it is no pawn any more, and the client is to be told that it is
    /// gone. The keys under which the client knows the entity and its
    /// components stay taken until the client has confirmed that.
    pub open spec fn scope_out(self, entity: EntityKey) -> Self {
        if self.has_entity(entity) {
            let i = spec_live_entity(self.entities, entity, 0);
            ReplicationView {
                entities: self.entities.update(
                    i,
                    EntityScope {
                        phase: ScopePhase::Leaving,
                        pawn: PawnPhase::Free,
                        ..self.entities[i]
                    },
                ),
                components: self.components.map_values(
                    |c: ComponentScopeView|
                        if c.owner == self.entities[i].local {
                            Self::left(c)
                        } else {
                            c
                        },
                ),
                ..self
            }
        } else {
            self
        }
    }

    /// The state after the properties in `diff` of `component` have
    /// changed: they are owed to this connection.
    pub open spec fn mutate(self, component: ReplicaKey, diff: Seq<u8>) -> Self {
        if self.has_component(component) {
            let i = spec_live_component(self.components, component, 0);
            ReplicationView {
                components: self.components.update(
                    i,
                    ComponentScopeView {
                        mask: spec_or(self.components[i].mask, diff),
                        ..self.components[i]
                    },
                ),
                ..self
            }
        } else {
            self
        }
    }

    /// The state after the user has been given `entity` to drive.
    pub open spec fn assign_pawn(self, entity: EntityKey) -> Self {
        if self.has_entity(entity) && (self.entity(entity).pawn == PawnPhase::Free
            || self.entity(entity).pawn == PawnPhase::Releasing) {
            let i = spec_live_entity(self.entities, entity, 0);
            ReplicationView {
                entities: self.entities.update(
                    i,
                    EntityScope { pawn: PawnPhase::Assigning, ..self.entities[i] },
                ),
                ..self
            }
        } else {
            self
        }
    }

    /// The state after `entity` has been taken from the user.
    pub open spec fn unassign_pawn(self, entity: EntityKey) -> Self {
        if self.has_entity(entity) && (self.entity(entity).pawn == PawnPhase::Assigning
            || self.entity(entity).pawn == PawnPhase::Owned) {
            let i = spec_live_entity(self.entities, entity, 0);
            ReplicationView {
                entities: self.entities.update(
                    i,
                    EntityScope { pawn: PawnPhase::Releasing, ..self.entities[i] },
                ),
                ..self
            }
        } else {
            self
        }
    }

    /// The state after the client has confirmed the record `record`.
    pub open spec fn confirmed(self, record: SentView) -> Self {
        if spec_about_component(record.kind) {
            let i = spec_component_by_local(self.components, record.local, 0);
            if i >= self.components.len() {
                self
            } else if record.kind == SentKind::Add && self.components[i].phase
                == ScopePhase::Entering {
                ReplicationView {
                    components: self.components.update(
                        i,
                        ComponentScopeView { phase: ScopePhase::Active, ..self.components[i] },
                    ),
                    ..self
                }
            } else if record.kind == SentKind::Remove && self.components[i].phase
                == ScopePhase::Leaving {
                ReplicationView { components: self.components.remove(i), ..self }
            } else {
                self
            }
        } else {
            let i = spec_entity_by_local(self.entities, record.local, 0);
            if i >= self.entities.len() {
                self
            } else {
                let entry = self.entities[i];
                if record.kind == SentKind::Create && entry.phase == ScopePhase::Entering {
                    ReplicationView {
                        entities: self.entities.update(
                            i,
                            EntityScope { phase: ScopePhase::Active, ..entry },
                        ),
                        ..self
                    }
                } else if record.kind == SentKind::Delete && entry.phase == ScopePhase::Leaving {
                    ReplicationView {
                        entities: self.entities.remove(i),
                        components: self.components.filter(
                            |c: ComponentScopeView| c.owner != record.local,
                        ),
                        ..self
                    }
                } else if record.kind == SentKind::Assign && entry.pawn == PawnPhase::Assigning {
                    ReplicationView {
                        entities: self.entities.update(
                            i,
                            EntityScope { pawn: PawnPhase::Owned, ..entry },
                        ),
                        ..self
                    }
                } else if record.kind == SentKind::Unassign && entry.pawn == PawnPhase::Releasing {
                    ReplicationView {
                        entities: self.entities.update(
                            i,
                            EntityScope { pawn: PawnPhase::Free, ..entry },
                        ),
                        ..self
                    }
                } else {
                    self
                }
            }
        }
    }

    /// The state after the record `record` has been given up as lost: the
    /// properties that an update carried are owed again.
    pub open spec fn lost(self, record: SentView) -> Self {
        let i = spec_component_by_local(self.components, record.local, 0);
        if record.kind == SentKind::Update && i < self.components.len()
            && self.components[i].phase == ScopePhase::Active {
            ReplicationView {
                components: self.components.update(
                    i,
                    ComponentScopeView {
                        mask: spec_or(self.components[i].mask, record.mask),
                        ..self.components[i]
                    },
                ),
                ..self
            }
        } else {
            self
        }
    }

    /// The state after the records `self.in_flight[from..]` of the packet
    /// `packet` have been settled, each one as confirmed or as lost.
    pub open spec fn settle_from(self, packet: u16, acked: bool, from: nat) -> Self
        decreases self.in_flight.len() - from,
    {
        if from >= self.in_flight.len() {
            self
        } else {
            let record = self.in_flight[from as int];
            let next = if record.packet != packet {
                self
            } else if acked {
                self.confirmed(record)
            } else {
                self.lost(record)
            };
            (ReplicationView { in_flight: self.in_flight, ..next }).settle_from(
                packet,
                acked,
                from + 1,
            )
        }
    }

    /// The state after the transport has told what became of the packet
    /// `packet`: its records are settled in the order in which they were
    /// written, and are under way no more.
    pub open spec fn settle(self, packet: u16, acked: bool) -> Self {
        ReplicationView {
            in_flight: self.in_flight.filter(|record: SentView| record.packet != packet),
            ..self.settle_from(packet, acked, 0)
        }
    }

    /// Whether the client knows the entity that owns the component at place
    /// `j`.
    pub open spec fn owner_active(self, j: int) -> bool {
        let i = spec_entity_by_local(self.entities, self.components[j].owner, 0);
        i < self.entities.len() && self.entities[i].phase == ScopePhase::Active
    }

    /// Whether anything is owed for the component at place `j`: it is
    /// known to the client, as is its entity, and some property of it has
    /// changed.
    pub open spec fn update_due(self, j: int) -> bool {
        let entry = self.components[j];
        &&& entry.phase == ScopePhase::Active
        &&& !spec_is_clear(entry.mask)
        &&& self.owner_active(j)
    }
}

impl ReplicationView {
    /// Whether the entity that owns the component at place `j` is in scope.
    pub open spec fn owner_in_scope(self, j: int) -> bool {
        exists|i: int|
            0 <= i < self.entities.len() && (#[trigger] self.entities[i]).local
                == self.components[j].owner && self.entities[i].phase != ScopePhase::Leaving
    }

    /// No two entities are known to the client under one key, and no two
    /// components.
    pub open spec fn locals_distinct(self) -> bool {
        &&& forall|i: int, k: int|
            0 <= i < k < self.entities.len() ==> (#[trigger] self.entities[i]).local != (
            #[trigger] self.entities[k]).local
        &&& forall|i: int, k: int|
            0 <= i < k < self.components.len() ==> (#[trigger] self.components[i]).local != (
            #[trigger] self.components[k]).local
    }

    /// The keys under which the client knows things are unique; every
    /// component that is in scope belongs to an entity that is in scope; and
    /// nothing is owed for a component that has left scope.
    pub open spec fn sound(self) -> bool {
        &&& self.locals_distinct()
        &&& forall|j: int|
            0 <= j < self.components.len() && (#[trigger] self.components[j]).phase
                != ScopePhase::Leaving ==> self.owner_in_scope(j)
        &&& forall|j: int|
            0 <= j < self.components.len() && (#[trigger] self.components[j]).phase
                == ScopePhase::Leaving ==> spec_is_clear(self.components[j].mask)
    }

    /// Where the diff mask of a component is not empty, the entity of the
    /// component is in scope.
    pub open spec fn masks_in_scope(self) -> bool {
        forall|j: int|
            0 <= j < self.components.len() && !spec_is_clear((#[trigger] self.components[j]).mask)
                ==> self.owner_in_scope(j)
    }

    /// The two states have the same entities and the same components, but
    /// that masks of the first may be cleared in the second.
    pub open spec fn same_shape(self, other: ReplicationView) -> bool {
        &&& other.entities == self.entities
        &&& other.components.len() == self.components.len()
        &&& forall|j: int|
            0 <= j < self.components.len() ==> {
                let a = #[trigger] self.components[j];
                let b = other.components[j];
                &&& b.component == a.component
                &&& b.owner == a.owner
                &&& b.local == a.local
                &&& b.phase == a.phase
                &&& (b.mask == a.mask || spec_is_clear(b.mask))
            }
    }
}

/// A key that no entity, or no component, is found under is the key of
/// none.
pub proof fn lemma_local_absent(
    entities: Seq<EntityScope>,
    components: Seq<ComponentScopeView>,
    local: u16,
    from: nat,
)
    ensures
        from <= entities.len() && spec_entity_by_local(entities, local, from) >= entities.len()
            ==> forall|i: int| from <= i < entities.len() ==> (#[trigger] entities[i]).local
            != local,
        from <= components.len() && spec_component_by_local(components, local, from)
            >= components.len() ==> forall|i: int|
            from <= i < components.len() ==> (#[trigger] components[i]).local != local,
    decreases entities.len() + components.len() - from,
{
    if from < entities.len() || from < components.len() {
        lemma_local_absent(entities, components, local, from + 1);
        lemma_found(entities, components, 0, 0, local, from + 1);
    }
}

/// A free key is the key of nothing in scope.
pub proof fn lemma_free_local(view: ReplicationView, candidate: nat)
    ensures
        view.free_entity_local(candidate) matches Some(local) ==> forall|i: int|
            0 <= i < view.entities.len() ==> (#[trigger] view.entities[i]).local != local,
        view.free_component_local(candidate) matches Some(local) ==> forall|i: int|
            0 <= i < view.components.len() ==> (#[trigger] view.components[i]).local != local,
    decreases 65536 - candidate,
{
    if candidate < 65536 {
        lemma_free_local(view, candidate + 1);
        lemma_local_absent(view.entities, view.components, candidate as u16, 0);
    }
}

/// What stays of a list of components after a filter has the distinct keys
/// that the list had.
pub proof fn lemma_filter_distinct(
    list: Seq<ComponentScopeView>,
    keep: spec_fn(ComponentScopeView) -> bool,
)
    requires
        forall|i: int, k: int|
            0 <= i < k < list.len() ==> (#[trigger] list[i]).local != (#[trigger] list[k]).local,
    ensures
        forall|i: int, k: int|
            0 <= i < k < list.filter(keep).len() ==> (#[trigger] list.filter(keep)[i]).local != (
            #[trigger] list.filter(keep)[k]).local,
    decreases list.len(),
{
    reveal(Seq::filter);
    if list.len() > 0 {
        let front = list.drop_last();
        let last = list.last();
        let sub = front.filter(keep);
        let out = list.filter(keep);
        assert forall|i: int, k: int| 0 <= i < k < front.len() implies (#[trigger] front[i]).local
            != (#[trigger] front[k]).local by {
            assert(list[i].local != list[k].local);
        }
        lemma_filter_distinct(front, keep);
        assert forall|i: int, k: int| 0 <= i < k < out.len() implies (#[trigger] out[i]).local != (
        #[trigger] out[k]).local by {
            if k < sub.len() {
                assert(sub[i].local != sub[k].local);
            } else {
                lemma_filtered(front, keep, i);
                let at = choose|at: int| 0 <= at < front.len() && front[at] == sub[i];
                assert(list[at].local != list[list.len() - 1].local);
            }
        }
    }
}

/// In a sound state a mask that is not empty belongs to a component whose
/// entity is in scope.
pub proof fn lemma_masks_in_scope(view: ReplicationView)
    requires
        view.sound(),
    ensures
        view.masks_in_scope(),
{
}

/// Clearing masks keeps a state sound.
pub proof fn lemma_shape_sound(view: ReplicationView, other: ReplicationView)
    requires
        view.sound(),
        view.same_shape(other),
    ensures
        other.sound(),
{
    assert forall|i: int, k: int| 0 <= i < k < other.components.len() implies (
    #[trigger] other.components[i]).local != (#[trigger] other.components[k]).local by {
        assert(view.components[i].local != view.components[k].local);
    }
    assert forall|j: int|
        0 <= j < other.components.len() && (#[trigger] other.components[j]).phase
            != ScopePhase::Leaving implies other.owner_in_scope(j) by {
        assert(view.components[j].phase != ScopePhase::Leaving);
        assert(view.owner_in_scope(j));
        let i = choose|i: int|
            0 <= i < view.entities.len() && (#[trigger] view.entities[i]).local
                == view.components[j].owner && view.entities[i].phase != ScopePhase::Leaving;
        assert(other.entities[i].local == other.components[j].owner);
    }
    assert forall|j: int|
        0 <= j < other.components.len() && (#[trigger] other.components[j]).phase
            == ScopePhase::Leaving implies spec_is_clear(other.components[j].mask) by {
        assert(view.components[j].phase == ScopePhase::Leaving);
    }
}

/// A component that comes into scope keeps the state sound.
pub proof fn lemma_add_component_sound(
    view: ReplicationView,
    entity: EntityKey,
    scoped: ScopedComponent,
)
    requires
        view.sound(),
    ensures
        view.add_component(entity, scoped).sound(),
        view.add_component(entity, scoped).entities == view.entities,
        view.add_component(entity, scoped).in_flight == view.in_flight,
{
    let after = view.add_component(entity, scoped);
    if view.can_add_component(entity, scoped.component) {
        let at = spec_live_entity(view.entities, entity, 0);
        lemma_found(view.entities, view.components, entity, 0, 0, 0);
        lemma_free_local(view, 0);
        assert forall|i: int, k: int| 0 <= i < k < after.components.len() implies (
        #[trigger] after.components[i]).local != (#[trigger] after.components[k]).local by {
            if k < view.components.len() {
                assert(view.components[i].local != view.components[k].local);
            } else {
                assert(view.components[i].local != after.components[k].local);
            }
        }
        assert forall|j: int|
            0 <= j < after.components.len() && (#[trigger] after.components[j]).phase
                != ScopePhase::Leaving implies after.owner_in_scope(j) by {
            if j < view.components.len() {
                assert(view.components[j].phase != ScopePhase::Leaving);
                assert(view.owner_in_scope(j));
                let i = choose|i: int|
                    0 <= i < view.entities.len() && (#[trigger] view.entities[i]).local
                        == view.components[j].owner && view.entities[i].phase
                        != ScopePhase::Leaving;
                assert(after.entities[i].local == after.components[j].owner);
            } else {
                assert(after.entities[at].local == after.components[j].owner);
            }
        }
        assert forall|j: int|
            0 <= j < after.components.len() && (#[trigger] after.components[j]).phase
                == ScopePhase::Leaving implies spec_is_clear(after.components[j].mask) by {
            assert(view.components[j].phase == ScopePhase::Leaving);
        }
    }
}

/// Components that come into scope keep the state sound.
pub proof fn lemma_add_components_sound(
    view: ReplicationView,
    entity: EntityKey,
    components: Seq<ScopedComponent>,
    from: nat,
)
    requires
        view.sound(),
        from <= components.len(),
    ensures
        view.add_components(entity, components, from).sound(),
    decreases components.len() - from,
{
    if from < components.len() {
        lemma_add_component_sound(view, entity, components[from as int]);
        lemma_add_components_sound(
            view.add_component(entity, components[from as int]),
            entity,
            components,
            from + 1,
        );
    }
}

/// One more entity keeps the state sound.
pub proof fn lemma_entity_pushed_sound(view: ReplicationView, entry: EntityScope)
    requires
        view.sound(),
        forall|i: int|
            0 <= i < view.entities.len() ==> (#[trigger] view.entities[i]).local != entry.local,
    ensures
        (ReplicationView { entities: view.entities.push(entry), ..view }).sound(),
{
    let pushed = ReplicationView { entities: view.entities.push(entry), ..view };
    assert forall|i: int, k: int| 0 <= i < k < pushed.entities.len() implies (
    #[trigger] pushed.entities[i]).local != (#[trigger] pushed.entities[k]).local by {
        if k < view.entities.len() {
            assert(view.entities[i].local != view.entities[k].local);
        } else {
            assert(view.entities[i].local != entry.local);
        }
    }
    assert forall|j: int|
        0 <= j < pushed.components.len() && (#[trigger] pushed.components[j]).phase
            != ScopePhase::Leaving implies pushed.owner_in_scope(j) by {
        assert(view.owner_in_scope(j));
        let i = choose|i: int|
            0 <= i < view.entities.len() && (#[trigger] view.entities[i]).local
                == view.components[j].owner && view.entities[i].phase != ScopePhase::Leaving;
        assert(pushed.entities[i].local == pushed.components[j].owner);
    }
}

/// An entity that comes into scope keeps the state sound.
pub proof fn lemma_scope_in_sound(
    view: ReplicationView,
    entity: EntityKey,
    components: Seq<ScopedComponent>,
)
    requires
        view.sound(),
    ensures
        view.scope_in(entity, components).sound(),
{
    if view.can_scope_in(entity) {
        let entry = EntityScope {
            entity,
            local: view.free_entity_local(0)->0,
            phase: ScopePhase::Entering,
            pawn: PawnPhase::Free,
        };
        lemma_free_local(view, 0);
        lemma_entity_pushed_sound(view, entry);
        let pushed = ReplicationView { entities: view.entities.push(entry), ..view };
        lemma_add_components_sound(pushed, entity, components, 0);
    }
}

/// A mask of zeros is clear.
pub proof fn lemma_zeros_clear(n: nat)
    ensures
        spec_is_clear(Seq::new(n, |k: int| 0u8)),
{
}

/// A component that leaves scope keeps the state sound.
pub proof fn lemma_remove_component_sound(view: ReplicationView, component: ReplicaKey)
    requires
        view.sound(),
    ensures
        view.remove_component(component).sound(),
{
    let after = view.remove_component(component);
    if view.has_component(component) {
        let at = spec_live_component(view.components, component, 0);
        lemma_found(view.entities, view.components, 0, component, 0, 0);
        lemma_zeros_clear(view.components[at].mask.len());
        assert forall|j: int|
            0 <= j < after.components.len() && (#[trigger] after.components[j]).phase
                != ScopePhase::Leaving implies after.owner_in_scope(j) by {
            assert(view.components[j].phase != ScopePhase::Leaving);
            assert(view.owner_in_scope(j));
            let i = choose|i: int|
                0 <= i < view.entities.len() && (#[trigger] view.entities[i]).local
                    == view.components[j].owner && view.entities[i].phase != ScopePhase::Leaving;
            assert(after.entities[i].local == after.components[j].owner);
        }
        assert forall|j: int|
            0 <= j < after.components.len() && (#[trigger] after.components[j]).phase
                == ScopePhase::Leaving implies spec_is_clear(after.components[j].mask) by {
            if j != at {
                assert(view.components[j].phase == ScopePhase::Leaving);
            }
        }
    }
}

/// An entity that leaves scope keeps the state sound: its components leave
/// with it, and nothing is owed for them any more.
pub proof fn lemma_scope_out_sound(view: ReplicationView, entity: EntityKey)
    requires
        view.sound(),
    ensures
        view.scope_out(entity).sound(),
{
    let after = view.scope_out(entity);
    if view.has_entity(entity) {
        let at = spec_live_entity(view.entities, entity, 0);
        lemma_found(view.entities, view.components, entity, 0, 0, 0);
        let gone = view.entities[at].local;
        assert forall|j: int|
            0 <= j < after.components.len() && (#[trigger] after.components[j]).phase
                != ScopePhase::Leaving implies after.owner_in_scope(j) by {
            assert(view.components[j].owner != gone);
            assert(view.components[j].phase != ScopePhase::Leaving);
            assert(view.owner_in_scope(j));
            let i = choose|i: int|
                0 <= i < view.entities.len() && (#[trigger] view.entities[i]).local
                    == view.components[j].owner && view.entities[i].phase != ScopePhase::Leaving;
            assert(i != at);
            assert(after.entities[i].local == after.components[j].owner);
        }
        assert forall|j: int|
            0 <= j < after.components.len() && (#[trigger] after.components[j]).phase
                == ScopePhase::Leaving implies spec_is_clear(after.components[j].mask) by {
            if view.components[j].owner == gone {
                lemma_zeros_clear(view.components[j].mask.len());
            } else {
                assert(view.components[j].phase == ScopePhase::Leaving);
            }
        }
    }
}

/// A change of a property keeps the state sound.
pub proof fn lemma_mutate_sound(view: ReplicationView, component: ReplicaKey, diff: Seq<u8>)
    requires
        view.sound(),
    ensures
        view.mutate(component, diff).sound(),
{
    let after = view.mutate(component, diff);
    if view.has_component(component) {
        let at = spec_live_component(view.components, component, 0);
        lemma_found(view.entities, view.components, 0, component, 0, 0);
        assert forall|j: int|
            0 <= j < after.components.len() && (#[trigger] after.components[j]).phase
                != ScopePhase::Leaving implies after.owner_in_scope(j) by {
            assert(view.components[j].phase != ScopePhase::Leaving);
            assert(view.owner_in_scope(j));
            let i = choose|i: int|
                0 <= i < view.entities.len() && (#[trigger] view.entities[i]).local
                    == view.components[j].owner && view.entities[i].phase != ScopePhase::Leaving;
            assert(after.entities[i].local == after.components[j].owner);
        }
        assert forall|j: int|
            0 <= j < after.components.len() && (#[trigger] after.components[j]).phase
                == ScopePhase::Leaving implies spec_is_clear(after.components[j].mask) by {
            assert(j != at);
            assert(view.components[j].phase == ScopePhase::Leaving);
        }
    }
}

/// Giving and taking a pawn keeps the state sound.
pub proof fn lemma_pawn_sound(view: ReplicationView, entity: EntityKey)
    requires
        view.sound(),
    ensures
        view.assign_pawn(entity).sound(),
        view.unassign_pawn(entity).sound(),
{
    let at = spec_live_entity(view.entities, entity, 0);
    lemma_found(view.entities, view.components, entity, 0, 0, 0);
    let assigned = view.assign_pawn(entity);
    let released = view.unassign_pawn(entity);
    assert forall|j: int|
        0 <= j < assigned.components.len() && (#[trigger] assigned.components[j]).phase
            != ScopePhase::Leaving implies assigned.owner_in_scope(j) by {
        assert(view.owner_in_scope(j));
        let i = choose|i: int|
            0 <= i < view.entities.len() && (#[trigger] view.entities[i]).local
                == view.components[j].owner && view.entities[i].phase != ScopePhase::Leaving;
        assert(assigned.entities[i].local == assigned.components[j].owner);
    }
    assert forall|j: int|
        0 <= j < released.components.len() && (#[trigger] released.components[j]).phase
            != ScopePhase::Leaving implies released.owner_in_scope(j) by {
        assert(view.owner_in_scope(j));
        let i = choose|i: int|
            0 <= i < view.entities.len() && (#[trigger] view.entities[i]).local
                == view.components[j].owner && view.entities[i].phase != ScopePhase::Leaving;
        assert(released.entities[i].local == released.components[j].owner);
    }
}

/// Whatever is filtered out of a list, what stays was in the list.
pub proof fn lemma_filtered<T>(list: Seq<T>, keep: spec_fn(T) -> bool, j: int)
    requires
        0 <= j < list.filter(keep).len(),
    ensures
        keep(list.filter(keep)[j]),
        list.contains(list.filter(keep)[j]),
    decreases list.len(),
{
    reveal(Seq::filter);
    if list.len() > 0 {
        let front = list.drop_last();
        let sub = front.filter(keep);
        if j < sub.len() {
            lemma_filtered(front, keep, j);
            let k = choose|k: int| 0 <= k < front.len() && front[k] == sub[j];
            assert(list[k] == sub[j]);
        } else {
            assert(list[list.len() - 1] == list.filter(keep)[j]);
        }
    }
}

/// A confirmed record keeps the state sound.
pub proof fn lemma_confirmed_sound(view: ReplicationView, record: SentView)
    requires
        view.sound(),
    ensures
        view.confirmed(record).sound(),
{
    let after = view.confirmed(record);
    lemma_found(view.entities, view.components, 0, 0, record.local, 0);
    assert(after.locals_distinct()) by {
        let ce = spec_entity_by_local(view.entities, record.local, 0);
        let cc = spec_component_by_local(view.components, record.local, 0);
        if after.entities.len() == view.entities.len() {
            assert forall|i: int, k: int| 0 <= i < k < after.entities.len() implies (
            #[trigger] after.entities[i]).local != (#[trigger] after.entities[k]).local by {
                assert(view.entities[i].local != view.entities[k].local);
            }
        } else {
            assert forall|i: int, k: int| 0 <= i < k < after.entities.len() implies (
            #[trigger] after.entities[i]).local != (#[trigger] after.entities[k]).local by {
                let oi = if i < ce {
                    i
                } else {
                    i + 1
                };
                let ok = if k < ce {
                    k
                } else {
                    k + 1
                };
                assert(after.entities[i] == view.entities[oi]);
                assert(after.entities[k] == view.entities[ok]);
                assert(view.entities[oi].local != view.entities[ok].local);
            }
        }
        if after.components == view.components {
        } else if spec_about_component(record.kind) {
            if after.components.len() == view.components.len() {
                assert forall|i: int, k: int| 0 <= i < k < after.components.len() implies (
                #[trigger] after.components[i]).local != (#[trigger] after.components[k]).local by {
                    assert(view.components[i].local != view.components[k].local);
                }
            } else {
                assert forall|i: int, k: int| 0 <= i < k < after.components.len() implies (
                #[trigger] after.components[i]).local != (#[trigger] after.components[k]).local by {
                    let oi = if i < cc {
                        i
                    } else {
                        i + 1
                    };
                    let ok = if k < cc {
                        k
                    } else {
                        k + 1
                    };
                    assert(after.components[i] == view.components[oi]);
                    assert(after.components[k] == view.components[ok]);
                    assert(view.components[oi].local != view.components[ok].local);
                }
            }
        } else {
            lemma_filter_distinct(
                view.components,
                |c: ComponentScopeView| c.owner != record.local,
            );
        }
    }
    if spec_about_component(record.kind) {
        let at = spec_component_by_local(view.components, record.local, 0);
        if at < view.components.len() {
            if record.kind == SentKind::Add && view.components[at].phase == ScopePhase::Entering {
                assert forall|j: int|
                    0 <= j < after.components.len() && (#[trigger] after.components[j]).phase
                        != ScopePhase::Leaving implies after.owner_in_scope(j) by {
                    assert(view.components[j].phase != ScopePhase::Leaving);
                    assert(view.owner_in_scope(j));
                    let i = choose|i: int|
                        0 <= i < view.entities.len() && (#[trigger] view.entities[i]).local
                            == view.components[j].owner && view.entities[i].phase
                            != ScopePhase::Leaving;
                    assert(after.entities[i].local == after.components[j].owner);
                }
                assert forall|j: int|
                    0 <= j < after.components.len() && (#[trigger] after.components[j]).phase
                        == ScopePhase::Leaving implies spec_is_clear(after.components[j].mask) by {
                    assert(view.components[j].phase == ScopePhase::Leaving);
                }
            } else if record.kind == SentKind::Remove && view.components[at].phase
                == ScopePhase::Leaving {
                assert forall|j: int|
                    0 <= j < after.components.len() && (#[trigger] after.components[j]).phase
                        != ScopePhase::Leaving implies after.owner_in_scope(j) by {
                    let old_j = if j < at {
                        j
                    } else {
                        j + 1
                    };
                    assert(after.components[j] == view.components[old_j]);
                    assert(view.owner_in_scope(old_j));
                    let i = choose|i: int|
                        0 <= i < view.entities.len() && (#[trigger] view.entities[i]).local
                            == view.components[old_j].owner && view.entities[i].phase
                            != ScopePhase::Leaving;
                    assert(after.entities[i].local == after.components[j].owner);
                }
                assert forall|j: int|
                    0 <= j < after.components.len() && (#[trigger] after.components[j]).phase
                        == ScopePhase::Leaving implies spec_is_clear(after.components[j].mask) by {
                    let old_j = if j < at {
                        j
                    } else {
                        j + 1
                    };
                    assert(after.components[j] == view.components[old_j]);
                }
            }
        }
    } else {
        let at = spec_entity_by_local(view.entities, record.local, 0);
        if at < view.entities.len() {
            let entry = view.entities[at];
            if record.kind == SentKind::Delete && entry.phase == ScopePhase::Leaving {
                let keep = |c: ComponentScopeView| c.owner != record.local;
                assert forall|j: int| 0 <= j < after.components.len() implies (
                #[trigger] after.components[j]).owner != record.local && view.components.contains(
                    after.components[j],
                ) by {
                    lemma_filtered(view.components, keep, j);
                }
                assert forall|j: int|
                    0 <= j < after.components.len() && (#[trigger] after.components[j]).phase
                        != ScopePhase::Leaving implies after.owner_in_scope(j) by {
                    let old_j = choose|k: int|
                        0 <= k < view.components.len() && view.components[k]
                            == after.components[j];
                    assert(view.components[old_j].phase != ScopePhase::Leaving);
                    assert(view.owner_in_scope(old_j));
                    let i = choose|i: int|
                        0 <= i < view.entities.len() && (#[trigger] view.entities[i]).local
                            == view.components[old_j].owner && view.entities[i].phase
                            != ScopePhase::Leaving;
                    assert(i != at);
                    let new_i = if i < at {
                        i
                    } else {
                        i - 1
                    };
                    assert(after.entities[new_i] == view.entities[i]);
                    assert(after.entities[new_i].local == after.components[j].owner);
                }
                assert forall|j: int|
                    0 <= j < after.components.len() && (#[trigger] after.components[j]).phase
                        == ScopePhase::Leaving implies spec_is_clear(after.components[j].mask) by {
                    let old_j = choose|k: int|
                        0 <= k < view.components.len() && view.components[k]
                            == after.components[j];
                    assert(view.components[old_j].phase == ScopePhase::Leaving);
                }
            } else if after != view {
                assert(after.components == view.components);
                assert forall|j: int|
                    0 <= j < after.components.len() && (#[trigger] after.components[j]).phase
                        != ScopePhase::Leaving implies after.owner_in_scope(j) by {
                    assert(view.owner_in_scope(j));
                    let i = choose|i: int|
                        0 <= i < view.entities.len() && (#[trigger] view.entities[i]).local
                            == view.components[j].owner && view.entities[i].phase
                            != ScopePhase::Leaving;
                    assert(after.entities[i].local == after.components[j].owner);
                    assert(after.entities[i].phase != ScopePhase::Leaving);
                }
            }
        }
    }
}

/// A lost record keeps the state sound.
pub proof fn lemma_lost_sound(view: ReplicationView, record: SentView)
    requires
        view.sound(),
    ensures
        view.lost(record).sound(),
{
    let after = view.lost(record);
    let at = spec_component_by_local(view.components, record.local, 0);
    lemma_found(view.entities, view.components, 0, 0, record.local, 0);
    if after != view {
        assert forall|j: int|
            0 <= j < after.components.len() && (#[trigger] after.components[j]).phase
                != ScopePhase::Leaving implies after.owner_in_scope(j) by {
            assert(view.components[j].phase != ScopePhase::Leaving);
            assert(view.owner_in_scope(j));
            let i = choose|i: int|
                0 <= i < view.entities.len() && (#[trigger] view.entities[i]).local
                    == view.components[j].owner && view.entities[i].phase != ScopePhase::Leaving;
            assert(after.entities[i].local == after.components[j].owner);
        }
        assert forall|j: int|
            0 <= j < after.components.len() && (#[trigger] after.components[j]).phase
                == ScopePhase::Leaving implies spec_is_clear(after.components[j].mask) by {
            assert(j != at);
            assert(view.components[j].phase == ScopePhase::Leaving);
        }
    }
}

/// Settling the records of a packet keeps the state sound.
pub proof fn lemma_settle_from_sound(view: ReplicationView, packet: u16, acked: bool, from: nat)
    requires
        view.sound(),
    ensures
        view.settle_from(packet, acked, from).sound(),
    decreases view.in_flight.len() - from,
{
    if from < view.in_flight.len() {
        let record = view.in_flight[from as int];
        let next = if record.packet != packet {
            view
        } else if acked {
            view.confirmed(record)
        } else {
            view.lost(record)
        };
        lemma_confirmed_sound(view, record);
        lemma_lost_sound(view, record);
        let carried = ReplicationView { in_flight: view.in_flight, ..next };
        assert(carried.sound()) by {
            assert forall|j: int|
                0 <= j < carried.components.len() && (#[trigger] carried.components[j]).phase
                    != ScopePhase::Leaving implies carried.owner_in_scope(j) by {
                assert(next.owner_in_scope(j));
                let i = choose|i: int|
                    0 <= i < next.entities.len() && (#[trigger] next.entities[i]).local
                        == next.components[j].owner && next.entities[i].phase
                        != ScopePhase::Leaving;
                assert(carried.entities[i].local == carried.components[j].owner);
            }
        }
        lemma_settle_from_sound(carried, packet, acked, from + 1);
    }
}

/// Settling a packet keeps the state sound.
pub proof fn lemma_settle_sound(view: ReplicationView, packet: u16, acked: bool)
    requires
        view.sound(),
    ensures
        view.settle(packet, acked).sound(),
{
    lemma_settle_from_sound(view, packet, acked, 0);
    let settled = view.settle_from(packet, acked, 0);
    let after = view.settle(packet, acked);
    assert forall|j: int|
        0 <= j < after.components.len() && (#[trigger] after.components[j]).phase
            != ScopePhase::Leaving implies after.owner_in_scope(j) by {
        assert(settled.owner_in_scope(j));
        let i = choose|i: int|
            0 <= i < settled.entities.len() && (#[trigger] settled.entities[i]).local
                == settled.components[j].owner && settled.entities[i].phase
                != ScopePhase::Leaving;
        assert(after.entities[i].local == after.components[j].owner);
    }
}

/// A list with one more entry at its end is searched as the list is, as
/// long as the search is decided before the end.
pub proof fn lemma_live_entity_push(
    entities: Seq<EntityScope>,
    entry: EntityScope,
    entity: EntityKey,
    from: nat,
)
    requires
        from <= entities.len(),
    ensures
        spec_live_entity(entities.push(entry), entity, from) == (if spec_live_entity(
            entities,
            entity,
            from,
        ) < entities.len() {
            spec_live_entity(entities, entity, from)
        } else if entry.entity == entity && entry.phase != ScopePhase::Leaving {
            entities.len() as int
        } else {
            entities.len() as int + 1
        }),
    decreases entities.len() - from,
{
    let longer = entities.push(entry);
    reveal_with_fuel(spec_live_entity, 2);
    if from < entities.len() {
        assert(longer[from as int] == entities[from as int]);
        lemma_live_entity_push(entities, entry, entity, from + 1);
        lemma_found(entities, Seq::empty(), entity, 0, 0, from + 1);
    } else {
        assert(longer[from as int] == entry);
    }
}

/// Components that come into scope change nothing about which entities
/// are in scope.
pub proof fn lemma_add_components_entities(
    view: ReplicationView,
    entity: EntityKey,
    components: Seq<ScopedComponent>,
    from: nat,
)
    requires
        from <= components.len(),
    ensures
        view.add_components(entity, components, from).entities == view.entities,
    decreases components.len() - from,
{
    if from < components.len() {
        lemma_add_components_entities(
            view.add_component(entity, components[from as int]),
            entity,
            components,
            from + 1,
        );
    }
}

/// An entity that could be brought into scope is in scope afterwards; one
/// that could not leaves the state as it was.
pub proof fn lemma_scope_presence(
    view: ReplicationView,
    entity: EntityKey,
    components: Seq<ScopedComponent>,
)
    ensures
        view.can_scope_in(entity) ==> view.scope_in(entity, components).has_entity(entity),
        !view.can_scope_in(entity) ==> view.scope_in(entity, components) == view,
{
    if view.can_scope_in(entity) {
        let entry = EntityScope {
            entity,
            local: view.free_entity_local(0)->0,
            phase: ScopePhase::Entering,
            pawn: PawnPhase::Free,
        };
        let pushed = ReplicationView { entities: view.entities.push(entry), ..view };
        lemma_live_entity_push(view.entities, entry, entity, 0);
        lemma_found(view.entities, view.components, entity, 0, 0, 0);
        lemma_add_components_entities(pushed, entity, components, 0);
    }
}

} // verus!
