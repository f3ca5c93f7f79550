//! What the client holds, as mathematics: the stores, the rule that ties
//! them together, and what each action of the server does to them.

use vstd::prelude::*;
use crate::client::component_record::{
    ComponentEntry, lemma_without_key, spec_has_key, spec_key_of_kind, spec_keys,
    spec_without_key,
};
use crate::client::replica_action::ActionView;
use crate::wire::ReplicaView;

verus! {

/// A component as the server announces it: its key and its first values.
pub struct NewComponent {
    pub key: u16,
    pub replica: ReplicaView,
}

/// `key` is one of `keys[from..]`.
pub open spec fn spec_listed(keys: Seq<u16>, from: nat, key: u16) -> bool {
    exists|i: int| from <= i < keys.len() && #[trigger] keys[i] == key
}

/// The keys of a record are the keys that it has.
pub proof fn lemma_listed_keys(entries: Seq<ComponentEntry>, key: u16)
    ensures
        spec_listed(spec_keys(entries), 0, key) <==> spec_has_key(entries, key),
{
    let keys = spec_keys(entries);
    if spec_listed(keys, 0, key) {
        let i = choose|i: int| 0 <= i < keys.len() && #[trigger] keys[i] == key;
        assert(entries[i].key == key);
    }
    if spec_has_key(entries, key) {
        let i = choose|i: int| 0 <= i < entries.len() && (#[trigger] entries[i]).key == key;
        assert(keys[i] == key);
    }
}

/// What the client holds.
pub struct ClientView {
    /// The components as the server last described them, by component key.
    pub replicas: Map<u16, ReplicaView>,
    /// The predicted copies of the components of pawns, by component key.
    pub pawns: Map<u16, ReplicaView>,
    /// The components of each entity, by entity key.
    pub entities: Map<u16, Seq<ComponentEntry>>,
    /// The entities that this client drives.
    pub pawn_entities: Set<u16>,
    /// The entity of each component.
    pub component_entity: Map<u16, u16>,
    /// What has been queued for the host program, oldest first.
    pub events: Seq<ActionView>,
}

/// One `AddComponent` event of `entity` for each of `replicas`, in order.
pub open spec fn spec_added(entity: u16, replicas: Seq<ReplicaView>) -> Seq<ActionView> {
    replicas.map_values(|replica: ReplicaView| ActionView::AddComponent(entity, replica))
}

impl ClientView {
    /// The entity of every component exists and lists the component.
    pub open spec fn components_owned(self) -> bool {
        forall|c: u16|
            (#[trigger] self.component_entity.contains_key(c)) ==> self.entities.contains_key(
                self.component_entity[c],
            ) && spec_has_key(self.entities[self.component_entity[c]], c)
    }

    /// Every component that an entity lists is mapped to that entity.
    pub open spec fn records_mapped(self) -> bool {
        forall|e: u16, i: int|
            self.entities.contains_key(e) && 0 <= i < self.entities[e].len() ==> {
                let key = (#[trigger] self.entities[e][i]).key;
                self.component_entity.contains_key(key) && self.component_entity[key] == e
            }
    }

    /// The mapped components are those that have a replica.
    pub open spec fn replicas_mapped(self) -> bool {
        forall|c: u16|
            (#[trigger] self.replicas.contains_key(c)) <==> (
            #[trigger] self.component_entity.contains_key(c))
    }

    /// Pawns are entities, and every component of a pawn has a predicted
    /// copy.
    pub open spec fn pawns_copied(self) -> bool {
        &&& forall|e: u16|
            (#[trigger] self.pawn_entities.contains(e)) ==> self.entities.contains_key(e)
        &&& forall|e: u16, i: int|
            self.pawn_entities.contains(e) && self.entities.contains_key(e) && 0 <= i
                < self.entities[e].len() ==> self.pawns.contains_key(
                (#[trigger] self.entities[e][i]).key,
            )
    }

    /// A predicted copy is a copy of a component that exists, of its kind.
    pub open spec fn pawns_typed(self) -> bool {
        forall|c: u16|
            (#[trigger] self.pawns.contains_key(c)) ==> self.replicas.contains_key(c)
                && self.pawns[c].kind
                == self.replicas[c].kind
    }

    /// A predicted copy belongs to a component of a pawn: no component of
    /// an entity that this client does not drive has one.
    pub open spec fn copies_of_pawns(self) -> bool {
        forall|c: u16|
            (#[trigger] self.pawns.contains_key(c)) ==> self.component_entity.contains_key(c)
                && self.pawn_entities.contains(self.component_entity[c])
    }

    /// The stores agree with one another.
    pub open spec fn wf(self) -> bool {
        &&& self.components_owned()
        &&& self.records_mapped()
        &&& self.replicas_mapped()
        &&& self.pawns_copied()
        &&& self.pawns_typed()
        &&& self.copies_of_pawns()
    }

    /// The values that `store` holds under `keys[from..]`, in order; keys
    /// without a value are passed over.
    pub open spec fn present(store: Map<u16, ReplicaView>, keys: Seq<u16>, from: nat) -> Seq<
        ReplicaView,
    >
        decreases keys.len() - from,
    {
        if from >= keys.len() {
            Seq::empty()
        } else if store.contains_key(keys[from as int]) {
            seq![store[keys[from as int]]] + Self::present(store, keys, from + 1)
        } else {
            Self::present(store, keys, from + 1)
        }
    }

    /// What `store` holds for the components of `entity`, in the order in
    /// which the entity got them; nothing for an entity that is not known.
    pub open spec fn listed_replicas(self, entity: u16, store: Map<u16, ReplicaView>) -> Seq<
        ReplicaView,
    > {
        if self.entities.contains_key(entity) {
            Self::present(store, spec_keys(self.entities[entity]), 0)
        } else {
            Seq::empty()
        }
    }

    /// The key of the component of `entity` that is of the kind numbered
    /// `kind`.
    pub open spec fn typed_key(self, entity: u16, kind: u16) -> Option<u16> {
        if self.entities.contains_key(entity) {
            spec_key_of_kind(self.entities[entity], kind)
        } else {
            None
        }
    }

    /// Whether the host program can give the predicted copy of the
    /// component of `entity` that is of the kind of `replica` the values
    /// of `replica`: there is such a component, and it has a copy.
    pub open spec fn can_predict(self, entity: u16, replica: ReplicaView) -> bool {
        self.typed_key(entity, replica.kind) matches Some(key) && self.pawns.contains_key(key)
            && self.pawns[key].kind == replica.kind
    }

    /// The state after the host program has given a predicted copy the
    /// values of `replica`.
    pub open spec fn predict(self, entity: u16, replica: ReplicaView) -> ClientView {
        if self.can_predict(entity, replica) {
            ClientView {
                pawns: self.pawns.insert(self.typed_key(entity, replica.kind)->0, replica),
                ..self
            }
        } else {
            self
        }
    }

    /// The state with `event` queued.
    pub open spec fn with_event(self, event: ActionView) -> ClientView {
        ClientView { events: self.events.push(event), ..self }
    }

    /// The state after the component `key` of `entity` has been forgotten:
    /// its replica and its predicted copy are gone, and the host program is
    /// told if there was a replica.
    pub open spec fn forget_component(self, entity: u16, key: u16) -> ClientView {
        ClientView {
            pawns: self.pawns.remove(key),
            replicas: self.replicas.remove(key),
            events: if self.replicas.contains_key(key) {
                self.events.push(ActionView::RemoveComponent(entity, self.replicas[key]))
            } else {
                self.events
            },
            ..self
        }
    }

    /// The predicted copy of the component `key` set back to the replica, if
    /// both exist.
    pub open spec fn reset_component(self, key: u16) -> ClientView {
        if self.replicas.contains_key(key) && self.pawns.contains_key(key) && self.pawns[key].kind
            == self.replicas[key].kind {
            ClientView { pawns: self.pawns.insert(key, self.replicas[key]), ..self }
        } else {
            self
        }
    }

    /// The predicted copies of the components `keys[from..]` set back.
    pub open spec fn reset_components(self, keys: Seq<u16>, from: nat) -> ClientView
        decreases keys.len() - from,
    {
        if from >= keys.len() {
            self
        } else {
            self.reset_component(keys[from as int]).reset_components(keys, from + 1)
        }
    }

    /// The state after the predicted copy of `entity` has been set back to
    /// what the server says: every component of the entity that has a
    /// predicted copy mirrors its replica, and the host program is told.
    pub open spec fn pawn_reset_entity(self, entity: u16) -> ClientView {
        let reset = if self.entities.contains_key(entity) {
            self.reset_components(spec_keys(self.entities[entity]), 0)
        } else {
            self
        };
        reset.with_event(ActionView::ResetPawnEntity(entity))
    }
}

/// Setting predicted copies back touches nothing but the copies of the
/// listed components, and leaves each of those equal to its replica.
pub proof fn lemma_reset_components(view: ClientView, keys: Seq<u16>, from: nat)
    requires
        from <= keys.len(),
    ensures
        ({
            let after = view.reset_components(keys, from);
            &&& after.replicas == view.replicas
            &&& after.entities == view.entities
            &&& after.pawn_entities == view.pawn_entities
            &&& after.component_entity == view.component_entity
            &&& after.events == view.events
            &&& after.pawns.dom() == view.pawns.dom()
            &&& forall|c: u16|
                (#[trigger] after.pawns.contains_key(c)) ==> after.pawns[c] == (if (exists|i: int|
                    from <= i < keys.len() && keys[i] == c) && view.replicas.contains_key(c)
                    && view.pawns[c].kind == view.replicas[c].kind {
                    view.replicas[c]
                } else {
                    view.pawns[c]
                })
        }),
    decreases keys.len() - from,
{
    if from < keys.len() {
        let next = view.reset_component(keys[from as int]);
        lemma_reset_components(next, keys, from + 1);
        let after = view.reset_components(keys, from);
        assert(next.pawns.dom() =~= view.pawns.dom());
        assert forall|c: u16| #[trigger] after.pawns.contains_key(c) implies after.pawns[c] == (
        if (exists|i: int| from <= i < keys.len() && keys[i] == c) && view.replicas.contains_key(c)
            && view.pawns[c].kind == view.replicas[c].kind {
            view.replicas[c]
        } else {
            view.pawns[c]
        }) by {
            assert(next.pawns.contains_key(c));
            if exists|i: int| from + 1 <= i < keys.len() && keys[i] == c {
                let i = choose|i: int| from + 1 <= i < keys.len() && keys[i] == c;
                assert(from <= i < keys.len() && keys[i] == c);
            }
            if exists|i: int| from <= i < keys.len() && keys[i] == c {
                let i = choose|i: int| from <= i < keys.len() && keys[i] == c;
                if i != from {
                    assert(from + 1 <= i < keys.len() && keys[i] == c);
                }
            }
        }
    }
}

/// Right after the predicted copy of a pawn has been set back, every
/// component of the pawn has a predicted copy that equals its replica; and
/// the stores still agree.
pub proof fn lemma_pawn_reset_entity(view: ClientView, entity: u16)
    requires
        view.wf(),
    ensures
        view.pawn_reset_entity(entity).wf(),
        view.pawn_reset_entity(entity).replicas == view.replicas,
        view.pawn_entities.contains(entity) ==> forall|i: int|
            0 <= i < view.entities[entity].len() ==> {
                let key = (#[trigger] view.entities[entity][i]).key;
                let after = view.pawn_reset_entity(entity);
                after.pawns.contains_key(key) && after.replicas.contains_key(key)
                    && after.pawns[key] == after.replicas[key]
            },
{
    let after = view.pawn_reset_entity(entity);
    if view.entities.contains_key(entity) {
        let keys = spec_keys(view.entities[entity]);
        lemma_reset_components(view, keys, 0);
        assert(after.pawns.dom() == view.pawns.dom());
        assert forall|c: u16| #[trigger] after.pawns.contains_key(c) implies view.pawns.contains_key(
            c,
        ) by {
            assert(after.pawns.dom().contains(c));
        }
        assert forall|c: u16| #[trigger] view.pawns.contains_key(c) implies after.pawns.contains_key(
            c,
        ) by {
            assert(view.pawns.dom().contains(c));
        }
        if view.pawn_entities.contains(entity) {
            assert forall|i: int| 0 <= i < view.entities[entity].len() implies {
                let key = (#[trigger] view.entities[entity][i]).key;
                after.pawns.contains_key(key) && after.replicas.contains_key(key)
                    && after.pawns[key] == after.replicas[key]
            } by {
                let key = view.entities[entity][i].key;
                assert(keys[i] == key);
                assert(view.pawns.contains_key(key));
                assert(after.pawns.contains_key(key));
            }
        }
    }
}

impl ClientView {
    /// The state after the component `key` of `entity` has been dropped: it
    /// is forgotten and no longer mapped to its entity.
    pub open spec fn drop_component(self, entity: u16, key: u16) -> ClientView {
        ClientView {
            component_entity: self.component_entity.remove(key),
            ..self.forget_component(entity, key)
        }
    }

    /// The state after the components `keys[from..]` of `entity` have been
    /// dropped, in order.
    pub open spec fn drop_components(self, entity: u16, keys: Seq<u16>, from: nat) -> ClientView
        decreases keys.len() - from,
    {
        if from >= keys.len() {
            self
        } else {
            self.drop_component(entity, keys[from as int]).drop_components(entity, keys, from + 1)
        }
    }

    /// The state after the server has deleted `entity`: the entity and all
    /// its components are gone, the host program is told of each component
    /// and then of the entity. An entity that is not known changes nothing.
    pub open spec fn delete_entity(self, entity: u16) -> ClientView {
        if self.entities.contains_key(entity) {
            (ClientView {
                entities: self.entities.remove(entity),
                pawn_entities: self.pawn_entities.remove(entity),
                ..self
            }).drop_components(entity, spec_keys(self.entities[entity]), 0).with_event(
                ActionView::DeleteEntity(entity),
            )
        } else {
            self
        }
    }

    /// The state after the server has deleted the component `key`: it is
    /// taken out of its entity's record and dropped. A component that is
    /// not known changes nothing.
    pub open spec fn delete_component(self, key: u16) -> ClientView {
        if self.component_entity.contains_key(key) {
            let entity = self.component_entity[key];
            (ClientView {
                entities: if self.entities.contains_key(entity) {
                    self.entities.insert(entity, spec_without_key(self.entities[entity], key))
                } else {
                    self.entities
                },
                ..self
            }).drop_component(entity, key)
        } else {
            self
        }
    }

    /// The state after the component `key` has been given a predicted copy.
    pub open spec fn copy_component(self, key: u16) -> ClientView {
        if self.replicas.contains_key(key) {
            ClientView { pawns: self.pawns.insert(key, self.replicas[key]), ..self }
        } else {
            self
        }
    }

    /// The state after the components `keys[from..]` have been given
    /// predicted copies.
    pub open spec fn copy_components(self, keys: Seq<u16>, from: nat) -> ClientView
        decreases keys.len() - from,
    {
        if from >= keys.len() {
            self
        } else {
            self.copy_component(keys[from as int]).copy_components(keys, from + 1)
        }
    }

    /// The state after the server has made `entity` a pawn of this client:
    /// each of its components gets a predicted copy, and the host program
    /// is told. An entity that is not known changes nothing.
    pub open spec fn assign_pawn(self, entity: u16) -> ClientView {
        if self.entities.contains_key(entity) {
            (ClientView {
                pawn_entities: self.pawn_entities.insert(entity),
                ..self
            }).copy_components(spec_keys(self.entities[entity]), 0).with_event(
                ActionView::AssignPawnEntity(entity),
            )
        } else {
            self
        }
    }

    /// The state after the predicted copies of `keys[from..]` have been
    /// dropped.
    pub open spec fn uncopy_components(self, keys: Seq<u16>, from: nat) -> ClientView
        decreases keys.len() - from,
    {
        if from >= keys.len() {
            self
        } else {
            (ClientView { pawns: self.pawns.remove(keys[from as int]), ..self }).uncopy_components(
                keys,
                from + 1,
            )
        }
    }

    /// The state after the server has taken `entity` from this client's
    /// pawns: the predicted copies of its components are dropped. The host
    /// program is told in any case.
    pub open spec fn unassign_pawn(self, entity: u16) -> ClientView {
        let released = if self.pawn_entities.contains(entity) {
            let cleared = ClientView {
                pawn_entities: self.pawn_entities.remove(entity),
                ..self
            };
            if self.entities.contains_key(entity) {
                cleared.uncopy_components(spec_keys(self.entities[entity]), 0)
            } else {
                cleared
            }
        } else {
            self
        };
        released.with_event(ActionView::UnassignPawnEntity(entity))
    }

    /// Whether a component with key `key` can be attached to `entity`: the
    /// entity is known and the key is free.
    pub open spec fn can_attach(self, entity: u16, key: u16) -> bool {
        self.entities.contains_key(entity) && !self.replicas.contains_key(key)
    }

    /// The state after `component` has been attached to `entity`, if it can
    /// be: it has a replica, is mapped to the entity and listed by it, and
    /// has a predicted copy if the entity is a pawn.
    pub open spec fn attach_component(self, entity: u16, component: NewComponent) -> ClientView {
        if self.can_attach(entity, component.key) {
            ClientView {
                replicas: self.replicas.insert(component.key, component.replica),
                component_entity: self.component_entity.insert(component.key, entity),
                entities: self.entities.insert(
                    entity,
                    self.entities[entity].push(
                        ComponentEntry { key: component.key, kind: component.replica.kind },
                    ),
                ),
                pawns: if self.pawn_entities.contains(entity) {
                    self.pawns.insert(component.key, component.replica)
                } else {
                    self.pawns
                },
                ..self
            }
        } else {
            self
        }
    }

    /// The state after the server has added `component` to `entity`. A key
    /// that is taken or an entity that is not known changes nothing.
    pub open spec fn add_component(self, entity: u16, component: NewComponent) -> ClientView {
        if self.can_attach(entity, component.key) {
            self.attach_component(entity, component).with_event(
                ActionView::AddComponent(entity, component.replica),
            )
        } else {
            self
        }
    }

    /// The state after `components[from..]` have been attached to `entity`,
    /// in order.
    pub open spec fn attach_components(
        self,
        entity: u16,
        components: Seq<NewComponent>,
        from: nat,
    ) -> ClientView
        decreases components.len() - from,
    {
        if from >= components.len() {
            self
        } else {
            self.attach_component(entity, components[from as int]).attach_components(
                entity,
                components,
                from + 1,
            )
        }
    }

    /// The replicas of those of `components[from..]` that get attached.
    pub open spec fn attached(self, entity: u16, components: Seq<NewComponent>, from: nat) -> Seq<
        ReplicaView,
    >
        decreases components.len() - from,
    {
        if from >= components.len() {
            Seq::empty()
        } else {
            let rest = self.attach_component(entity, components[from as int]).attached(
                entity,
                components,
                from + 1,
            );
            if self.can_attach(entity, components[from as int].key) {
                seq![components[from as int].replica] + rest
            } else {
                rest
            }
        }
    }

    /// The state after the server has created `entity` with `components`:
    /// the entity exists with those of the components whose key was free.
    /// The host program is told of the entity with the replicas it came
    /// with, and then of each of those components in turn, in the order in
    /// which they were sent. An entity that is known already changes nothing.
    pub open spec fn create_entity(self, entity: u16, components: Seq<NewComponent>) -> ClientView {
        if self.entities.contains_key(entity) {
            self
        } else {
            let start = ClientView {
                entities: self.entities.insert(entity, Seq::<ComponentEntry>::empty()),
                ..self
            };
            let filled = start.attach_components(entity, components, 0);
            let attached = start.attached(entity, components, 0);
            ClientView {
                events: filled.events.push(ActionView::CreateEntity(entity, attached))
                    + spec_added(entity, attached),
                ..filled
            }
        }
    }

    /// Whether `replica` can take the place of the replica of `key`: the
    /// component is known and is of the kind of `replica`.
    pub open spec fn can_update(self, key: u16, replica: ReplicaView) -> bool {
        &&& self.replicas.contains_key(key)
        &&& self.component_entity.contains_key(key)
        &&& self.replicas[key].kind == replica.kind
    }

    /// The state after the server has sent new values for the component
    /// `key`: its replica, not its predicted copy, has them, and the host
    /// program is told.
    pub open spec fn update_component(self, key: u16, replica: ReplicaView) -> ClientView {
        if self.can_update(key, replica) {
            (ClientView { replicas: self.replicas.insert(key, replica), ..self }).with_event(
                ActionView::UpdateComponent(self.component_entity[key], replica),
            )
        } else {
            self
        }
    }
}

/// Dropping components touches nothing but the listed ones.
pub proof fn lemma_drop_components(view: ClientView, entity: u16, keys: Seq<u16>, from: nat)
    requires
        from <= keys.len(),
    ensures
        ({
            let after = view.drop_components(entity, keys, from);
            &&& after.entities == view.entities
            &&& after.pawn_entities == view.pawn_entities
            &&& forall|c: u16| #![trigger after.replicas.contains_key(c)]
                after.replicas.contains_key(c) <==> view.replicas.contains_key(c) && !spec_listed(
                    keys,
                    from,
                    c,
                )
            &&& forall|c: u16| #![trigger after.pawns.contains_key(c)]
                after.pawns.contains_key(c) <==> view.pawns.contains_key(c) && !spec_listed(
                    keys,
                    from,
                    c,
                )
            &&& forall|c: u16| #![trigger after.component_entity.contains_key(c)]
                after.component_entity.contains_key(c) <==> view.component_entity.contains_key(c)
                    && !spec_listed(keys, from, c)
            &&& forall|c: u16| #![trigger after.replicas[c]]
                after.replicas.contains_key(c) ==> after.replicas[c] == view.replicas[c]
            &&& forall|c: u16| #![trigger after.pawns[c]]
                after.pawns.contains_key(c) ==> after.pawns[c] == view.pawns[c]
            &&& forall|c: u16| #![trigger after.component_entity[c]]
                after.component_entity.contains_key(c) ==> after.component_entity[c]
                    == view.component_entity[c]
        }),
    decreases keys.len() - from,
{
    if from < keys.len() {
        let key = keys[from as int];
        let next = view.drop_component(entity, key);
        lemma_drop_components(next, entity, keys, from + 1);
        let after = view.drop_components(entity, keys, from);
        assert forall|c: u16| spec_listed(keys, from, c) <==> (c == key || spec_listed(
            keys,
            from + 1,
            c,
        )) by {
            if spec_listed(keys, from, c) {
                let i = choose|i: int| from <= i < keys.len() && #[trigger] keys[i] == c;
                if i != from {
                    assert(from + 1 <= i < keys.len() && keys[i] == c);
                }
            }
            if spec_listed(keys, from + 1, c) {
                let i = choose|i: int| from + 1 <= i < keys.len() && #[trigger] keys[i] == c;
                assert(from <= i < keys.len() && keys[i] == c);
            }
            if c == key {
                assert(from <= from < keys.len() && keys[from as int] == c);
            }
        }
    } else {
        assert forall|c: u16| !spec_listed(keys, from, c) by {}
    }
}

/// Copying components touches nothing but the predicted copies of the listed
/// ones.
pub proof fn lemma_copy_components(view: ClientView, keys: Seq<u16>, from: nat)
    requires
        from <= keys.len(),
    ensures
        ({
            let after = view.copy_components(keys, from);
            &&& after.entities == view.entities
            &&& after.pawn_entities == view.pawn_entities
            &&& after.replicas == view.replicas
            &&& after.component_entity == view.component_entity
            &&& after.events == view.events
            &&& forall|c: u16| #![trigger after.pawns.contains_key(c)]
                after.pawns.contains_key(c) <==> view.pawns.contains_key(c) || (spec_listed(
                    keys,
                    from,
                    c,
                ) && view.replicas.contains_key(c))
            &&& forall|c: u16| #![trigger after.pawns[c]]
                after.pawns.contains_key(c) ==> after.pawns[c] == (if spec_listed(keys, from, c)
                    && view.replicas.contains_key(c) {
                    view.replicas[c]
                } else {
                    view.pawns[c]
                })
        }),
    decreases keys.len() - from,
{
    if from < keys.len() {
        let key = keys[from as int];
        let next = view.copy_component(key);
        lemma_copy_components(next, keys, from + 1);
        assert forall|c: u16| spec_listed(keys, from, c) <==> (c == key || spec_listed(
            keys,
            from + 1,
            c,
        )) by {
            if spec_listed(keys, from, c) {
                let i = choose|i: int| from <= i < keys.len() && #[trigger] keys[i] == c;
                if i != from {
                    assert(from + 1 <= i < keys.len() && keys[i] == c);
                }
            }
            if spec_listed(keys, from + 1, c) {
                let i = choose|i: int| from + 1 <= i < keys.len() && #[trigger] keys[i] == c;
                assert(from <= i < keys.len() && keys[i] == c);
            }
            if c == key {
                assert(from <= from < keys.len() && keys[from as int] == c);
            }
        }
    } else {
        assert forall|c: u16| !spec_listed(keys, from, c) by {}
    }
}

/// Dropping predicted copies touches nothing but the copies of the listed
/// components.
pub proof fn lemma_uncopy_components(view: ClientView, keys: Seq<u16>, from: nat)
    requires
        from <= keys.len(),
    ensures
        ({
            let after = view.uncopy_components(keys, from);
            &&& after.entities == view.entities
            &&& after.pawn_entities == view.pawn_entities
            &&& after.replicas == view.replicas
            &&& after.component_entity == view.component_entity
            &&& after.events == view.events
            &&& forall|c: u16| #![trigger after.pawns.contains_key(c)]
                after.pawns.contains_key(c) <==> view.pawns.contains_key(c) && !spec_listed(
                    keys,
                    from,
                    c,
                )
            &&& forall|c: u16| #![trigger after.pawns[c]]
                after.pawns.contains_key(c) ==> after.pawns[c] == view.pawns[c]
        }),
    decreases keys.len() - from,
{
    if from < keys.len() {
        let key = keys[from as int];
        let next = ClientView { pawns: view.pawns.remove(key), ..view };
        lemma_uncopy_components(next, keys, from + 1);
        assert forall|c: u16| spec_listed(keys, from, c) <==> (c == key || spec_listed(
            keys,
            from + 1,
            c,
        )) by {
            if spec_listed(keys, from, c) {
                let i = choose|i: int| from <= i < keys.len() && #[trigger] keys[i] == c;
                if i != from {
                    assert(from + 1 <= i < keys.len() && keys[i] == c);
                }
            }
            if spec_listed(keys, from + 1, c) {
                let i = choose|i: int| from + 1 <= i < keys.len() && #[trigger] keys[i] == c;
                assert(from <= i < keys.len() && keys[i] == c);
            }
            if c == key {
                assert(from <= from < keys.len() && keys[from as int] == c);
            }
        }
    } else {
        assert forall|c: u16| !spec_listed(keys, from, c) by {}
    }
}

/// A component that an entity lists is not listed by another.
pub proof fn lemma_records_disjoint(view: ClientView, first: u16, second: u16, key: u16)
    requires
        view.wf(),
        view.entities.contains_key(first),
        view.entities.contains_key(second),
        spec_has_key(view.entities[first], key),
        spec_has_key(view.entities[second], key),
    ensures
        first == second,
{
    let i = choose|i: int|
        0 <= i < view.entities[first].len() && (#[trigger] view.entities[first][i]).key == key;
    let j = choose|j: int|
        0 <= j < view.entities[second].len() && (#[trigger] view.entities[second][j]).key == key;
    assert(view.component_entity[view.entities[first][i].key] == first);
    assert(view.component_entity[view.entities[second][j].key] == second);
}

/// Deleting an entity keeps the stores in agreement.
pub proof fn lemma_delete_entity_wf(view: ClientView, entity: u16)
    requires
        view.wf(),
    ensures
        view.delete_entity(entity).wf(),
        !view.delete_entity(entity).entities.contains_key(entity),
{
    if view.entities.contains_key(entity) {
        let record = view.entities[entity];
        let keys = spec_keys(record);
        let base = ClientView {
            entities: view.entities.remove(entity),
            pawn_entities: view.pawn_entities.remove(entity),
            ..view
        };
        let dropped = base.drop_components(entity, keys, 0);
        let after = view.delete_entity(entity);
        lemma_drop_components(base, entity, keys, 0);
        assert(after.entities == base.entities);
        assert(after.pawn_entities == base.pawn_entities);
        assert(after.replicas == dropped.replicas);
        assert(after.pawns == dropped.pawns);
        assert(after.component_entity == dropped.component_entity);
        assert forall|c: u16| (#[trigger] after.component_entity.contains_key(c))
            implies after.entities.contains_key(after.component_entity[c]) && spec_has_key(
            after.entities[after.component_entity[c]],
            c,
        ) by {
            assert(dropped.component_entity.contains_key(c));
            assert(view.component_entity.contains_key(c));
            assert(dropped.component_entity[c] == view.component_entity[c]);
            lemma_listed_keys(record, c);
        }
        assert forall|e: u16, i: int|
            after.entities.contains_key(e) && 0 <= i < after.entities[e].len() implies {
            let key = (#[trigger] after.entities[e][i]).key;
            after.component_entity.contains_key(key) && after.component_entity[key] == e
        } by {
            let key = view.entities[e][i].key;
            assert(view.component_entity.contains_key(key) && view.component_entity[key] == e);
            lemma_listed_keys(record, key);
            if spec_has_key(record, key) {
                assert(spec_has_key(view.entities[e], key));
                lemma_records_disjoint(view, e, entity, key);
            }
            assert(dropped.component_entity.contains_key(key));
            assert(dropped.component_entity[key] == view.component_entity[key]);
        }
        assert forall|c: u16|
            (#[trigger] after.replicas.contains_key(c)) <==> (
            #[trigger] after.component_entity.contains_key(c)) by {
            assert(dropped.replicas.contains_key(c) <==> dropped.component_entity.contains_key(c));
        }
        assert forall|e: u16| (#[trigger] after.pawn_entities.contains(e))
            implies after.entities.contains_key(e) by {
            assert(view.pawn_entities.contains(e));
        }
        assert forall|e: u16, i: int|
            after.pawn_entities.contains(e) && after.entities.contains_key(e) && 0 <= i
                < after.entities[e].len() implies after.pawns.contains_key(
            (#[trigger] after.entities[e][i]).key,
        ) by {
            let key = view.entities[e][i].key;
            assert(view.pawn_entities.contains(e));
            assert(view.pawns.contains_key(key));
            lemma_listed_keys(record, key);
            if spec_has_key(record, key) {
                assert(spec_has_key(view.entities[e], key));
                lemma_records_disjoint(view, e, entity, key);
            }
            assert(dropped.pawns.contains_key(key));
        }
        assert forall|c: u16| (#[trigger] after.pawns.contains_key(c))
            implies after.replicas.contains_key(c) && after.pawns[c].kind
            == after.replicas[c].kind by {
            assert(dropped.pawns.contains_key(c));
            assert(view.pawns.contains_key(c));
            assert(dropped.replicas.contains_key(c));
            assert(dropped.pawns[c] == view.pawns[c]);
            assert(dropped.replicas[c] == view.replicas[c]);
        }
    }
}

/// Deleting a component keeps the stores in agreement.
pub proof fn lemma_delete_component_wf(view: ClientView, key: u16)
    requires
        view.wf(),
    ensures
        view.delete_component(key).wf(),
        !view.delete_component(key).replicas.contains_key(key),
{
    if view.component_entity.contains_key(key) {
        let entity = view.component_entity[key];
        let record = view.entities[entity];
        let after = view.delete_component(key);
        lemma_without_key(record, key);
        assert(after.entities == view.entities.insert(entity, spec_without_key(record, key)));
        assert forall|c: u16| (#[trigger] after.component_entity.contains_key(c))
            implies after.entities.contains_key(after.component_entity[c]) && spec_has_key(
            after.entities[after.component_entity[c]],
            c,
        ) by {
            assert(view.component_entity.contains_key(c));
        }
        assert forall|e: u16, i: int|
            after.entities.contains_key(e) && 0 <= i < after.entities[e].len() implies {
            let k = (#[trigger] after.entities[e][i]).key;
            after.component_entity.contains_key(k) && after.component_entity[k] == e
        } by {
            let k = after.entities[e][i].key;
            if e == entity {
                assert(spec_has_key(after.entities[e], k));
                assert(k != key);
                assert(spec_has_key(record, k));
                let j = choose|j: int| 0 <= j < record.len() && (#[trigger] record[j]).key == k;
                assert(view.component_entity[view.entities[entity][j].key] == entity);
            } else {
                assert(view.component_entity.contains_key(view.entities[e][i].key));
                if k == key {
                    assert(view.component_entity[view.entities[e][i].key] == e);
                }
            }
        }
        assert forall|c: u16|
            (#[trigger] after.replicas.contains_key(c)) <==> (
            #[trigger] after.component_entity.contains_key(c)) by {
            assert(view.replicas.contains_key(c) <==> view.component_entity.contains_key(c));
        }
        assert forall|e: u16| (#[trigger] after.pawn_entities.contains(e))
            implies after.entities.contains_key(e) by {
            assert(view.pawn_entities.contains(e));
        }
        assert forall|e: u16, i: int|
            after.pawn_entities.contains(e) && after.entities.contains_key(e) && 0 <= i
                < after.entities[e].len() implies after.pawns.contains_key(
            (#[trigger] after.entities[e][i]).key,
        ) by {
            let k = after.entities[e][i].key;
            if e == entity {
                assert(spec_has_key(after.entities[e], k));
                assert(k != key);
                assert(spec_has_key(record, k));
                let j = choose|j: int| 0 <= j < record.len() && (#[trigger] record[j]).key == k;
                assert(view.pawns.contains_key(view.entities[entity][j].key));
            } else {
                assert(view.pawns.contains_key(view.entities[e][i].key));
                if k == key {
                    assert(view.component_entity[view.entities[e][i].key] == e);
                }
            }
        }
        assert forall|c: u16| (#[trigger] after.pawns.contains_key(c))
            implies after.replicas.contains_key(c) && after.pawns[c].kind
            == after.replicas[c].kind by {
            assert(view.pawns.contains_key(c));
        }
    } else {
        assert(!view.replicas.contains_key(key));
    }
}

/// Making an entity a pawn keeps the stores in agreement.
pub proof fn lemma_assign_pawn_wf(view: ClientView, entity: u16)
    requires
        view.wf(),
    ensures
        view.assign_pawn(entity).wf(),
        view.entities.contains_key(entity) ==> view.assign_pawn(entity).pawn_entities.contains(
            entity,
        ),
{
    if view.entities.contains_key(entity) {
        let record = view.entities[entity];
        let keys = spec_keys(record);
        let base = ClientView { pawn_entities: view.pawn_entities.insert(entity), ..view };
        let copied = base.copy_components(keys, 0);
        let after = view.assign_pawn(entity);
        lemma_copy_components(base, keys, 0);
        assert(after.entities == view.entities);
        assert(after.replicas == view.replicas);
        assert(after.component_entity == view.component_entity);
        assert(after.pawns == copied.pawns);
        assert(after.pawn_entities == base.pawn_entities);
        assert forall|e: u16, i: int|
            after.pawn_entities.contains(e) && after.entities.contains_key(e) && 0 <= i
                < after.entities[e].len() implies after.pawns.contains_key(
            (#[trigger] after.entities[e][i]).key,
        ) by {
            let key = view.entities[e][i].key;
            assert(view.component_entity.contains_key(key));
            assert(view.replicas.contains_key(key));
            if e == entity {
                assert(spec_has_key(record, key));
                lemma_listed_keys(record, key);
            } else {
                assert(view.pawn_entities.contains(e));
                assert(view.pawns.contains_key(key));
            }
            assert(copied.pawns.contains_key(key));
        }
        assert forall|c: u16| (#[trigger] after.pawns.contains_key(c))
            implies after.replicas.contains_key(c) && after.pawns[c].kind
            == after.replicas[c].kind by {
            assert(copied.pawns.contains_key(c));
            assert(copied.pawns[c] == (if spec_listed(keys, 0, c) && view.replicas.contains_key(c) {
                view.replicas[c]
            } else {
                view.pawns[c]
            }));
            if !(spec_listed(keys, 0, c) && view.replicas.contains_key(c)) {
                assert(view.pawns.contains_key(c));
            }
        }
        assert forall|e: u16| (#[trigger] after.pawn_entities.contains(e))
            implies after.entities.contains_key(e) by {
            if e != entity {
                assert(view.pawn_entities.contains(e));
            }
        }
    }
}

/// Taking an entity from the pawns keeps the stores in agreement.
pub proof fn lemma_unassign_pawn_wf(view: ClientView, entity: u16)
    requires
        view.wf(),
    ensures
        view.unassign_pawn(entity).wf(),
        !view.unassign_pawn(entity).pawn_entities.contains(entity),
{
    let after = view.unassign_pawn(entity);
    if view.pawn_entities.contains(entity) {
        assert(view.entities.contains_key(entity));
        let record = view.entities[entity];
        let keys = spec_keys(record);
        let base = ClientView { pawn_entities: view.pawn_entities.remove(entity), ..view };
        let cleared = base.uncopy_components(keys, 0);
        lemma_uncopy_components(base, keys, 0);
        assert(after.entities == view.entities);
        assert(after.replicas == view.replicas);
        assert(after.component_entity == view.component_entity);
        assert(after.pawns == cleared.pawns);
        assert(after.pawn_entities == base.pawn_entities);
        assert forall|e: u16, i: int|
            after.pawn_entities.contains(e) && after.entities.contains_key(e) && 0 <= i
                < after.entities[e].len() implies after.pawns.contains_key(
            (#[trigger] after.entities[e][i]).key,
        ) by {
            let key = view.entities[e][i].key;
            assert(view.pawn_entities.contains(e));
            assert(view.pawns.contains_key(key));
            lemma_listed_keys(record, key);
            if spec_has_key(record, key) {
                assert(spec_has_key(view.entities[e], key));
                lemma_records_disjoint(view, e, entity, key);
            }
            assert(cleared.pawns.contains_key(key));
        }
        assert forall|c: u16| (#[trigger] after.pawns.contains_key(c))
            implies after.replicas.contains_key(c) && after.pawns[c].kind
            == after.replicas[c].kind by {
            assert(cleared.pawns.contains_key(c));
            assert(view.pawns.contains_key(c));
            assert(cleared.pawns[c] == view.pawns[c]);
        }
        assert forall|e: u16| (#[trigger] after.pawn_entities.contains(e))
            implies after.entities.contains_key(e) by {
            assert(view.pawn_entities.contains(e));
        }
        assert forall|c: u16| (#[trigger] after.pawns.contains_key(c))
            implies after.component_entity.contains_key(c) && after.pawn_entities.contains(
            after.component_entity[c],
        ) by {
            assert(cleared.pawns.contains_key(c));
            assert(view.pawns.contains_key(c));
            assert(!spec_listed(keys, 0, c));
            if view.component_entity[c] == entity {
                assert(view.component_entity.contains_key(c));
                lemma_listed_keys(record, c);
            }
        }
    } else {
        assert(after.entities == view.entities);
        assert(after.replicas == view.replicas);
        assert(after.component_entity == view.component_entity);
        assert(after.pawns == view.pawns);
        assert(after.pawn_entities == view.pawn_entities);
    }
}

/// Attaching a component keeps the stores in agreement.
pub proof fn lemma_attach_component_wf(view: ClientView, entity: u16, component: NewComponent)
    requires
        view.wf(),
    ensures
        view.attach_component(entity, component).wf(),
        view.attach_component(entity, component).events == view.events,
        view.attach_component(entity, component).pawn_entities == view.pawn_entities,
        view.attach_component(entity, component).entities.dom() == view.entities.dom(),
{
    let after = view.attach_component(entity, component);
    if view.can_attach(entity, component.key) {
        let key = component.key;
        let record = view.entities[entity];
        let entry = ComponentEntry { key, kind: component.replica.kind };
        assert(!view.component_entity.contains_key(key));
        assert(after.entities.dom() =~= view.entities.dom());
        assert forall|c: u16| (#[trigger] after.component_entity.contains_key(c))
            implies after.entities.contains_key(after.component_entity[c]) && spec_has_key(
            after.entities[after.component_entity[c]],
            c,
        ) by {
            if c == key {
                assert(record.push(entry)[record.len() as int].key == key);
            } else {
                assert(view.component_entity.contains_key(c));
                let owner = view.component_entity[c];
                if owner == entity {
                    let j = choose|j: int| 0 <= j < record.len() && (#[trigger] record[j]).key == c;
                    assert(record.push(entry)[j].key == c);
                }
            }
        }
        assert forall|e: u16, i: int|
            after.entities.contains_key(e) && 0 <= i < after.entities[e].len() implies {
            let k = (#[trigger] after.entities[e][i]).key;
            after.component_entity.contains_key(k) && after.component_entity[k] == e
        } by {
            if e == entity {
                if i < record.len() {
                    assert(view.component_entity.contains_key(view.entities[e][i].key));
                }
            } else {
                assert(view.component_entity.contains_key(view.entities[e][i].key));
            }
        }
        assert forall|c: u16|
            (#[trigger] after.replicas.contains_key(c)) <==> (
            #[trigger] after.component_entity.contains_key(c)) by {
            assert(view.replicas.contains_key(c) <==> view.component_entity.contains_key(c));
        }
        assert forall|e: u16| (#[trigger] after.pawn_entities.contains(e))
            implies after.entities.contains_key(e) by {
            assert(view.pawn_entities.contains(e));
        }
        assert forall|e: u16, i: int|
            after.pawn_entities.contains(e) && after.entities.contains_key(e) && 0 <= i
                < after.entities[e].len() implies after.pawns.contains_key(
            (#[trigger] after.entities[e][i]).key,
        ) by {
            if e == entity {
                if i < record.len() {
                    assert(view.pawns.contains_key(view.entities[e][i].key));
                }
            } else {
                assert(view.pawns.contains_key(view.entities[e][i].key));
            }
        }
        assert forall|c: u16| (#[trigger] after.pawns.contains_key(c))
            implies after.replicas.contains_key(c) && after.pawns[c].kind
            == after.replicas[c].kind by {
            if c != key {
                assert(view.pawns.contains_key(c));
            }
        }
    }
}

/// Attaching a list of components keeps the stores in agreement.
pub proof fn lemma_attach_components_wf(
    view: ClientView,
    entity: u16,
    components: Seq<NewComponent>,
    from: nat,
)
    requires
        view.wf(),
        from <= components.len(),
    ensures
        view.attach_components(entity, components, from).wf(),
        view.attach_components(entity, components, from).events == view.events,
        view.attach_components(entity, components, from).pawn_entities == view.pawn_entities,
        view.attach_components(entity, components, from).entities.dom() == view.entities.dom(),
    decreases components.len() - from,
{
    if from < components.len() {
        lemma_attach_component_wf(view, entity, components[from as int]);
        lemma_attach_components_wf(
            view.attach_component(entity, components[from as int]),
            entity,
            components,
            from + 1,
        );
    }
}

/// Creating an entity keeps the stores in agreement.
pub proof fn lemma_create_entity_wf(view: ClientView, entity: u16, components: Seq<NewComponent>)
    requires
        view.wf(),
    ensures
        view.create_entity(entity, components).wf(),
        view.create_entity(entity, components).entities.contains_key(entity),
{
    if !view.entities.contains_key(entity) {
        let start = ClientView {
            entities: view.entities.insert(entity, Seq::<ComponentEntry>::empty()),
            ..view
        };
        assert(start.wf()) by {
            assert forall|c: u16| (#[trigger] start.component_entity.contains_key(c))
                implies start.entities.contains_key(start.component_entity[c]) && spec_has_key(
                start.entities[start.component_entity[c]],
                c,
            ) by {
                assert(view.component_entity.contains_key(c));
            }
            assert forall|e: u16| (#[trigger] start.pawn_entities.contains(e))
                implies start.entities.contains_key(e) by {
                assert(view.pawn_entities.contains(e));
            }
        }
        lemma_attach_components_wf(start, entity, components, 0);
        let attached = start.attach_components(entity, components, 0);
        let after = view.create_entity(entity, components);
        assert(attached.entities.dom().contains(entity));
        assert(after.entities == attached.entities);
        assert(after.replicas == attached.replicas);
        assert(after.component_entity == attached.component_entity);
        assert(after.pawns == attached.pawns);
        assert(after.pawn_entities == attached.pawn_entities);
    }
}

/// New values for a component keep the stores in agreement.
pub proof fn lemma_update_component_wf(view: ClientView, key: u16, replica: ReplicaView)
    requires
        view.wf(),
    ensures
        view.update_component(key, replica).wf(),
{
    let after = view.update_component(key, replica);
    if view.can_update(key, replica) {
        assert(after.entities == view.entities);
        assert(after.component_entity == view.component_entity);
        assert(after.pawns == view.pawns);
        assert(after.pawn_entities == view.pawn_entities);
        assert forall|c: u16|
            (#[trigger] after.replicas.contains_key(c)) <==> (
            #[trigger] after.component_entity.contains_key(c)) by {
            assert(view.replicas.contains_key(c) <==> view.component_entity.contains_key(c));
        }
        assert forall|c: u16| (#[trigger] after.pawns.contains_key(c))
            implies after.replicas.contains_key(c) && after.pawns[c].kind
            == after.replicas[c].kind by {
            assert(view.pawns.contains_key(c));
        }
    }
}

/// A prediction keeps the stores in agreement.
pub proof fn lemma_predict_wf(view: ClientView, entity: u16, replica: ReplicaView)
    requires
        view.wf(),
    ensures
        view.predict(entity, replica).wf(),
{
    let after = view.predict(entity, replica);
    if view.can_predict(entity, replica) {
        let key = view.typed_key(entity, replica.kind)->0;
        assert(after.entities == view.entities);
        assert(after.component_entity == view.component_entity);
        assert(after.replicas == view.replicas);
        assert(after.pawn_entities == view.pawn_entities);
        assert forall|e: u16, i: int|
            after.pawn_entities.contains(e) && after.entities.contains_key(e) && 0 <= i
                < after.entities[e].len() implies after.pawns.contains_key(
            (#[trigger] after.entities[e][i]).key,
        ) by {
            assert(view.pawns.contains_key(view.entities[e][i].key));
        }
        assert forall|c: u16| (#[trigger] after.pawns.contains_key(c))
            implies after.replicas.contains_key(c) && after.pawns[c].kind
            == after.replicas[c].kind by {
            assert(view.pawns.contains_key(c));
        }
    }
}

/// For every component that the client knows, the entity that it is mapped
/// to exists; for every pawn, each of its components has a predicted copy;
/// and no component of an entity that is not a pawn has one. All three hold
/// whenever the stores agree.
pub proof fn lemma_stores_agree(view: ClientView)
    requires
        view.wf(),
    ensures
        forall|c: u16| #[trigger]
            view.replicas.contains_key(c) ==> view.component_entity.contains_key(c)
                && view.entities.contains_key(view.component_entity[c]),
        forall|e: u16, i: int|
            view.pawn_entities.contains(e) && 0 <= i < view.entities[e].len()
                ==> view.pawns.contains_key((#[trigger] view.entities[e][i]).key),
        forall|e: u16, i: int|
            view.entities.contains_key(e) && !view.pawn_entities.contains(e) && 0 <= i
                < view.entities[e].len() ==> !view.pawns.contains_key(
                (#[trigger] view.entities[e][i]).key,
            ),
{
    assert forall|e: u16, i: int|
        view.entities.contains_key(e) && !view.pawn_entities.contains(e) && 0 <= i
            < view.entities[e].len() implies !view.pawns.contains_key(
        (#[trigger] view.entities[e][i]).key,
    ) by {
        let key = view.entities[e][i].key;
        assert(view.component_entity[key] == e);
    }
    assert forall|c: u16| #[trigger] view.replicas.contains_key(c)
        implies view.component_entity.contains_key(c) && view.entities.contains_key(
        view.component_entity[c],
    ) by {
        assert(view.component_entity.contains_key(c));
    }
}

/// Right after an entity has been made a pawn, every component of it has a
/// predicted copy that equals its replica.
pub proof fn lemma_assign_pawn_copies(view: ClientView, entity: u16)
    requires
        view.wf(),
        view.entities.contains_key(entity),
    ensures
        forall|i: int|
            0 <= i < view.entities[entity].len() ==> {
                let key = (#[trigger] view.entities[entity][i]).key;
                let after = view.assign_pawn(entity);
                after.pawns.contains_key(key) && after.replicas.contains_key(key)
                    && after.pawns[key] == after.replicas[key]
            },
{
    let record = view.entities[entity];
    let keys = spec_keys(record);
    let base = ClientView { pawn_entities: view.pawn_entities.insert(entity), ..view };
    let copied = base.copy_components(keys, 0);
    let after = view.assign_pawn(entity);
    lemma_copy_components(base, keys, 0);
    assert(after.pawns == copied.pawns);
    assert(after.replicas == view.replicas);
    assert forall|i: int| 0 <= i < record.len() implies {
        let key = (#[trigger] record[i]).key;
        after.pawns.contains_key(key) && after.replicas.contains_key(key) && after.pawns[key]
            == after.replicas[key]
    } by {
        let key = record[i].key;
        assert(keys[i] == key);
        assert(spec_listed(keys, 0, key));
        assert(view.component_entity.contains_key(key));
        assert(view.replicas.contains_key(key));
        assert(copied.pawns.contains_key(key));
        assert(copied.pawns[key] == view.replicas[key]);
    }
}

/// Setting back the predicted copy of an entity that is not a pawn changes
/// no store: the host program is told, and that is all.
pub proof fn lemma_reset_of_no_pawn(view: ClientView, entity: u16)
    requires
        view.wf(),
        !view.pawn_entities.contains(entity),
    ensures
        view.pawn_reset_entity(entity) == view.with_event(ActionView::ResetPawnEntity(entity)),
{
    if view.entities.contains_key(entity) {
        let record = view.entities[entity];
        let keys = spec_keys(record);
        lemma_stores_agree(view);
        lemma_reset_untouched(view, keys, 0);
    }
}

/// Setting back components that have no predicted copy changes nothing.
pub proof fn lemma_reset_untouched(view: ClientView, keys: Seq<u16>, from: nat)
    requires
        from <= keys.len(),
        forall|i: int| from <= i < keys.len() ==> !view.pawns.contains_key(#[trigger] keys[i]),
    ensures
        view.reset_components(keys, from) == view,
    decreases keys.len() - from,
{
    if from < keys.len() {
        assert(!view.pawns.contains_key(keys[from as int]));
        lemma_reset_untouched(view, keys, from + 1);
    }
}

} // verus!
