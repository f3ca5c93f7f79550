//! Writing the entity section of a packet: what a connection is owed, in
//! the order that lets the client apply it as it reads.

use vstd::prelude::*;
use crate::action_writer::{
    spec_encode_add, spec_encode_component, spec_encode_components, spec_encode_create,
    spec_encode_keyed, spec_encode_update,
};
use crate::client::client_view::NewComponent;
use crate::replica_action_type::ReplicaActionType;
use crate::server::entity_store::ComponentView;
use crate::server::replication_view::{
    ComponentScopeView, PawnPhase, ReplicationView, ScopePhase, SentKind, SentView,
};
use crate::wire::spec_mask_size;

verus! {

/// A section that is being written: what the connection will remember of
/// it, the records so far, their number, and whether the section is closed
/// because a record did not fit.
pub struct Writing {
    pub view: ReplicationView,
    pub body: Seq<u8>,
    pub count: nat,
    pub full: bool,
}

/// The components that go out with a new entity, and the records of it.
pub struct Gathered {
    pub components: Seq<NewComponent>,
    pub records: Seq<SentView>,
}

/// The record of something that was sent without a mask.
pub open spec fn spec_sent(packet: u16, kind: SentKind, local: u16) -> SentView {
    SentView { packet, kind, local, mask: Seq::empty() }
}

/// The components `components[from..]` of the entity with the local key
/// `owner` that are entering and that the world has, added to `acc` as far
/// as a record has room for them.
pub open spec fn spec_gather(
    components: Seq<ComponentScopeView>,
    world: Map<u64, ComponentView>,
    owner: u16,
    packet: u16,
    from: nat,
    acc: Gathered,
) -> Gathered
    decreases components.len() - from,
{
    if from >= components.len() {
        acc
    } else {
        let entry = components[from as int];
        if entry.owner == owner && entry.phase == ScopePhase::Entering && world.contains_key(
            entry.component,
        ) && acc.components.len() < 255 {
            spec_gather(
                components,
                world,
                owner,
                packet,
                from + 1,
                Gathered {
                    components: acc.components.push(
                        NewComponent {
                            key: entry.local,
                            replica: world[entry.component].replica,
                        },
                    ),
                    records: acc.records.push(spec_sent(packet, SentKind::Add, entry.local)),
                },
            )
        } else {
            spec_gather(components, world, owner, packet, from + 1, acc)
        }
    }
}

impl Writing {
    /// Whether a record of `encoded` bytes still fits: the section is open,
    /// has fewer than 255 records, and stays within `limit` bytes.
    pub open spec fn fits(self, limit: nat, encoded: Seq<u8>) -> bool {
        !self.full && self.count < 255 && self.body.len() + encoded.len() <= limit
    }

    /// The section after the record `encoded` has been offered: written and
    /// remembered if it fits; else the section is closed, and what was not
    /// written stays owed.
    pub open spec fn emit(self, limit: nat, encoded: Seq<u8>, records: Seq<SentView>) -> Writing {
        if self.fits(limit, encoded) {
            Writing {
                view: ReplicationView {
                    in_flight: self.view.in_flight + records,
                    ..self.view
                },
                body: self.body + encoded,
                count: self.count + 1,
                full: false,
            }
        } else {
            Writing { full: true, ..self }
        }
    }

    /// The entities from place `i` on that are entering are announced, each
    /// with its components in full.
    pub open spec fn creates_from(
        self,
        world: Map<u64, ComponentView>,
        packet: u16,
        limit: nat,
        i: nat,
    ) -> Writing
        decreases self.view.entities.len() - i,
    {
        if i >= self.view.entities.len() {
            self
        } else {
            let entry = self.view.entities[i as int];
            let next = if entry.phase == ScopePhase::Entering {
                let gathered = spec_gather(
                    self.view.components,
                    world,
                    entry.local,
                    packet,
                    0,
                    Gathered {
                        components: Seq::empty(),
                        records: seq![spec_sent(packet, SentKind::Create, entry.local)],
                    },
                );
                self.emit(
                    limit,
                    spec_encode_create(entry.local, gathered.components),
                    gathered.records,
                )
            } else {
                self
            };
            (Writing {
                view: ReplicationView { entities: self.view.entities, ..next.view },
                ..next
            }).creates_from(world, packet, limit, i + 1)
        }
    }

    /// The components from place `j` on whose entity the client knows are
    /// added if they are entering, and deleted if they are leaving.
    pub open spec fn structure_from(
        self,
        world: Map<u64, ComponentView>,
        packet: u16,
        limit: nat,
        j: nat,
    ) -> Writing
        decreases self.view.components.len() - j,
    {
        if j >= self.view.components.len() {
            self
        } else {
            let entry = self.view.components[j as int];
            let next = if !self.view.owner_active(j as int) {
                self
            } else if entry.phase == ScopePhase::Entering && world.contains_key(entry.component) {
                self.emit(
                    limit,
                    spec_encode_add(
                        entry.owner,
                        NewComponent {
                            key: entry.local,
                            replica: world[entry.component].replica,
                        },
                    ),
                    seq![spec_sent(packet, SentKind::Add, entry.local)],
                )
            } else if entry.phase == ScopePhase::Leaving {
                self.emit(
                    limit,
                    spec_encode_keyed(ReplicaActionType::DeleteComponent, entry.local),
                    seq![spec_sent(packet, SentKind::Remove, entry.local)],
                )
            } else {
                self
            };
            (Writing {
                view: ReplicationView { components: self.view.components, ..next.view },
                ..next
            }).structure_from(world, packet, limit, j + 1)
        }
    }

    /// Whether an update of the component at place `j` can be written: one
    /// is due, the world has the component, and its mask has the width that
    /// its kind asks.
    pub open spec fn update_ready(self, world: Map<u64, ComponentView>, j: int) -> bool {
        let entry = self.view.components[j];
        &&& self.view.update_due(j)
        &&& world.contains_key(entry.component)
        &&& entry.mask.len() == spec_mask_size(world[entry.component].replica.props.len())
        &&& entry.mask.len() <= 255
    }

    /// The section after the update of the component at place `j` has been
    /// offered: if it fits, the properties that were owed are written, and
    /// the mask is cleared and remembered with the packet.
    pub open spec fn update_one(
        self,
        world: Map<u64, ComponentView>,
        packet: u16,
        limit: nat,
        j: int,
    ) -> Writing {
        let entry = self.view.components[j];
        let encoded = spec_encode_update(entry.local, entry.mask, world[entry.component].replica);
        let emitted = self.emit(
            limit,
            encoded,
            seq![
                SentView { packet, kind: SentKind::Update, local: entry.local, mask: entry.mask },
            ],
        );
        if self.fits(limit, encoded) {
            Writing {
                view: ReplicationView {
                    components: self.view.components.update(
                        j,
                        ComponentScopeView {
                            mask: Seq::new(entry.mask.len(), |k: int| 0u8),
                            ..entry
                        },
                    ),
                    ..emitted.view
                },
                ..emitted
            }
        } else {
            emitted
        }
    }

    /// The components from place `j` on that owe properties are updated.
    pub open spec fn updates_from(
        self,
        world: Map<u64, ComponentView>,
        packet: u16,
        limit: nat,
        j: nat,
    ) -> Writing
        decreases self.view.components.len() - j,
    {
        if j >= self.view.components.len() {
            self
        } else {
            let next = if self.update_ready(world, j as int) {
                self.update_one(world, packet, limit, j as int)
            } else {
                self
            };
            if next.view.components.len() == self.view.components.len() {
                next.updates_from(world, packet, limit, j + 1)
            } else {
                next
            }
        }
    }

    /// The entities from place `i` on that the client knows are given to
    /// the user, or taken from it, as is pending.
    pub open spec fn pawns_from(self, packet: u16, limit: nat, i: nat) -> Writing
        decreases self.view.entities.len() - i,
    {
        if i >= self.view.entities.len() {
            self
        } else {
            let entry = self.view.entities[i as int];
            let next = if entry.phase != ScopePhase::Active {
                self
            } else if entry.pawn == PawnPhase::Assigning {
                self.emit(
                    limit,
                    spec_encode_keyed(ReplicaActionType::AssignPawnEntity, entry.local),
                    seq![spec_sent(packet, SentKind::Assign, entry.local)],
                )
            } else if entry.pawn == PawnPhase::Releasing {
                self.emit(
                    limit,
                    spec_encode_keyed(ReplicaActionType::UnassignPawnEntity, entry.local),
                    seq![spec_sent(packet, SentKind::Unassign, entry.local)],
                )
            } else {
                self
            };
            (Writing {
                view: ReplicationView { entities: self.view.entities, ..next.view },
                ..next
            }).pawns_from(packet, limit, i + 1)
        }
    }

    /// The entities from place `i` on that are leaving are deleted.
    pub open spec fn deletes_from(self, packet: u16, limit: nat, i: nat) -> Writing
        decreases self.view.entities.len() - i,
    {
        if i >= self.view.entities.len() {
            self
        } else {
            let entry = self.view.entities[i as int];
            let next = if entry.phase == ScopePhase::Leaving {
                self.emit(
                    limit,
                    spec_encode_keyed(ReplicaActionType::DeleteEntity, entry.local),
                    seq![spec_sent(packet, SentKind::Delete, entry.local)],
                )
            } else {
                self
            };
            (Writing {
                view: ReplicationView { entities: self.view.entities, ..next.view },
                ..next
            }).deletes_from(packet, limit, i + 1)
        }
    }
}

impl ReplicationView {
    /// The entity section of the packet `packet` for this connection, of at
    /// most `limit` bytes of records, and what the connection remembers of
    /// it.
    ///
    /// The records stand in the order that the client needs: first the new
    /// entities with their components, then components added and deleted,
    /// then the updates, then pawns given and taken, and the deleted
    /// entities last. Entities and components that come and go are written
    /// in every packet until one of them arrives.
    pub open spec fn write_section(self, world: Map<u64, ComponentView>, packet: u16, limit: nat)
        -> Writing {
        (Writing {
            view: self,
            body: Seq::empty(),
            count: 0,
            full: false,
        }).creates_from(world, packet, limit, 0).structure_from(world, packet, limit, 0).updates_from(
            world,
            packet,
            limit,
            0,
        ).pawns_from(packet, limit, 0).deletes_from(packet, limit, 0)
    }
}

/// A list of components with one more at its end has the bytes of the list
/// and then the bytes of the one.
pub proof fn lemma_encode_components_push(
    components: Seq<NewComponent>,
    component: NewComponent,
    from: nat,
)
    requires
        from <= components.len(),
    ensures
        spec_encode_components(components.push(component), from) == spec_encode_components(
            components,
            from,
        ) + spec_encode_component(component),
    decreases components.len() - from,
{
    let longer = components.push(component);
    if from < components.len() {
        lemma_encode_components_push(components, component, from + 1);
        assert(longer[from as int] == components[from as int]);
        assert(spec_encode_components(longer, from) =~= spec_encode_components(components, from)
            + spec_encode_component(component));
    } else {
        reveal_with_fuel(spec_encode_components, 2);
        assert(spec_encode_components(longer, from) =~= spec_encode_components(components, from)
            + spec_encode_component(component));
    }
}

/// A state has its own shape, and shapes follow one another.
pub proof fn lemma_shape_chain(a: ReplicationView, b: ReplicationView, c: ReplicationView)
    requires
        a.same_shape(b),
        b.same_shape(c),
    ensures
        a.same_shape(a),
        a.same_shape(c),
{
    assert forall|j: int| 0 <= j < a.components.len() implies {
        let x = #[trigger] a.components[j];
        let z = c.components[j];
        &&& z.component == x.component
        &&& z.owner == x.owner
        &&& z.local == x.local
        &&& z.phase == x.phase
        &&& (z.mask == x.mask || crate::diff_mask::spec_is_clear(z.mask))
    } by {
        let y = b.components[j];
        assert(y.phase == a.components[j].phase);
    }
}

/// Writing new entities changes nothing in scope.
pub proof fn lemma_creates_shape(
    writing: Writing,
    world: Map<u64, ComponentView>,
    packet: u16,
    limit: nat,
    i: nat,
)
    ensures
        writing.view.same_shape(writing.creates_from(world, packet, limit, i).view),
    decreases writing.view.entities.len() - i,
{
    if i < writing.view.entities.len() {
        let entry = writing.view.entities[i as int];
        let next = if entry.phase == ScopePhase::Entering {
            let gathered = spec_gather(
                writing.view.components,
                world,
                entry.local,
                packet,
                0,
                Gathered {
                    components: Seq::empty(),
                    records: seq![spec_sent(packet, SentKind::Create, entry.local)],
                },
            );
            writing.emit(
                limit,
                spec_encode_create(entry.local, gathered.components),
                gathered.records,
            )
        } else {
            writing
        };
        let carried = Writing {
            view: ReplicationView { entities: writing.view.entities, ..next.view },
            ..next
        };
        lemma_creates_shape(carried, world, packet, limit, i + 1);
        lemma_shape_chain(
            writing.view,
            carried.view,
            carried.creates_from(world, packet, limit, i + 1).view,
        );
    }
}

/// Writing components that come and go changes nothing in scope.
pub proof fn lemma_structure_shape(
    writing: Writing,
    world: Map<u64, ComponentView>,
    packet: u16,
    limit: nat,
    j: nat,
)
    ensures
        writing.view.same_shape(writing.structure_from(world, packet, limit, j).view),
    decreases writing.view.components.len() - j,
{
    if j < writing.view.components.len() {
        let entry = writing.view.components[j as int];
        let next = if !writing.view.owner_active(j as int) {
            writing
        } else if entry.phase == ScopePhase::Entering && world.contains_key(entry.component) {
            writing.emit(
                limit,
                spec_encode_add(
                    entry.owner,
                    NewComponent { key: entry.local, replica: world[entry.component].replica },
                ),
                seq![spec_sent(packet, SentKind::Add, entry.local)],
            )
        } else if entry.phase == ScopePhase::Leaving {
            writing.emit(
                limit,
                spec_encode_keyed(ReplicaActionType::DeleteComponent, entry.local),
                seq![spec_sent(packet, SentKind::Remove, entry.local)],
            )
        } else {
            writing
        };
        let carried = Writing {
            view: ReplicationView { components: writing.view.components, ..next.view },
            ..next
        };
        lemma_structure_shape(carried, world, packet, limit, j + 1);
        lemma_shape_chain(
            writing.view,
            carried.view,
            carried.structure_from(world, packet, limit, j + 1).view,
        );
    }
}

/// Writing updates clears masks and changes nothing else in scope.
pub proof fn lemma_updates_shape(
    writing: Writing,
    world: Map<u64, ComponentView>,
    packet: u16,
    limit: nat,
    j: nat,
)
    ensures
        writing.view.same_shape(writing.updates_from(world, packet, limit, j).view),
    decreases writing.view.components.len() - j,
{
    if j < writing.view.components.len() {
        let next = if writing.update_ready(world, j as int) {
            writing.update_one(world, packet, limit, j as int)
        } else {
            writing
        };
        assert(writing.view.same_shape(next.view)) by {
            crate::server::replication_view::lemma_zeros_clear(
                writing.view.components[j as int].mask.len(),
            );
        }
        if next.view.components.len() == writing.view.components.len() {
            lemma_updates_shape(next, world, packet, limit, j + 1);
            lemma_shape_chain(
                writing.view,
                next.view,
                next.updates_from(world, packet, limit, j + 1).view,
            );
        }
    }
}

/// Writing pawns given and taken changes nothing in scope.
pub proof fn lemma_pawns_shape(writing: Writing, packet: u16, limit: nat, i: nat)
    ensures
        writing.view.same_shape(writing.pawns_from(packet, limit, i).view),
    decreases writing.view.entities.len() - i,
{
    if i < writing.view.entities.len() {
        let entry = writing.view.entities[i as int];
        let next = if entry.phase != ScopePhase::Active {
            writing
        } else if entry.pawn == PawnPhase::Assigning {
            writing.emit(
                limit,
                spec_encode_keyed(ReplicaActionType::AssignPawnEntity, entry.local),
                seq![spec_sent(packet, SentKind::Assign, entry.local)],
            )
        } else if entry.pawn == PawnPhase::Releasing {
            writing.emit(
                limit,
                spec_encode_keyed(ReplicaActionType::UnassignPawnEntity, entry.local),
                seq![spec_sent(packet, SentKind::Unassign, entry.local)],
            )
        } else {
            writing
        };
        let carried = Writing {
            view: ReplicationView { entities: writing.view.entities, ..next.view },
            ..next
        };
        lemma_pawns_shape(carried, packet, limit, i + 1);
        lemma_shape_chain(writing.view, carried.view, carried.pawns_from(packet, limit, i + 1).view);
    }
}

/// Writing deleted entities changes nothing in scope.
pub proof fn lemma_deletes_shape(writing: Writing, packet: u16, limit: nat, i: nat)
    ensures
        writing.view.same_shape(writing.deletes_from(packet, limit, i).view),
    decreases writing.view.entities.len() - i,
{
    if i < writing.view.entities.len() {
        let entry = writing.view.entities[i as int];
        let next = if entry.phase == ScopePhase::Leaving {
            writing.emit(
                limit,
                spec_encode_keyed(ReplicaActionType::DeleteEntity, entry.local),
                seq![spec_sent(packet, SentKind::Delete, entry.local)],
            )
        } else {
            writing
        };
        let carried = Writing {
            view: ReplicationView { entities: writing.view.entities, ..next.view },
            ..next
        };
        lemma_deletes_shape(carried, packet, limit, i + 1);
        lemma_shape_chain(
            writing.view,
            carried.view,
            carried.deletes_from(packet, limit, i + 1).view,
        );
    }
}

/// Writing a section brings nothing into scope and takes nothing out of
/// it: it clears the masks of the updates that it writes, and remembers
/// what it wrote.
pub proof fn lemma_write_section_shape(
    view: ReplicationView,
    world: Map<u64, ComponentView>,
    packet: u16,
    limit: nat,
)
    ensures
        view.same_shape(view.write_section(world, packet, limit).view),
{
    let blank = Writing { view, body: Seq::empty(), count: 0, full: false };
    let created = blank.creates_from(world, packet, limit, 0);
    let structured = created.structure_from(world, packet, limit, 0);
    let updated = structured.updates_from(world, packet, limit, 0);
    let assigned = updated.pawns_from(packet, limit, 0);
    let deleted = assigned.deletes_from(packet, limit, 0);
    lemma_creates_shape(blank, world, packet, limit, 0);
    lemma_structure_shape(created, world, packet, limit, 0);
    lemma_updates_shape(structured, world, packet, limit, 0);
    lemma_pawns_shape(updated, packet, limit, 0);
    lemma_deletes_shape(assigned, packet, limit, 0);
    lemma_shape_chain(view, created.view, structured.view);
    lemma_shape_chain(view, structured.view, updated.view);
    lemma_shape_chain(view, updated.view, assigned.view);
    lemma_shape_chain(view, assigned.view, deleted.view);
}

} // verus!
