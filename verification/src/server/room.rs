//! Rooms: who may see what. A user sees an entity if the two share a room
//! and no rule of the host program forbids it.

use vstd::prelude::*;
use crate::key_set::{KeySet, lemma_with_without, spec_distinct, spec_has, spec_with, spec_without};
use crate::server::keys::{EntityKey, RoomKey, UserKey};

verus! {

/// A room: the users and the entities in it.
pub struct RoomView {
    pub key: RoomKey,
    pub users: Seq<u64>,
    pub entities: Seq<u64>,
}

/// A rule of the host program on whether a user may see an entity.
#[derive(Clone, Copy, Debug, PartialEq, Eq, Structural)]
pub struct ScopeRule {
    pub user: UserKey,
    pub entity: EntityKey,
    pub allowed: bool,
}

/// A user and an entity that share a room.
#[derive(Clone, Copy, Debug, PartialEq, Eq, Structural)]
pub struct ScopeTriple {
    pub room: RoomKey,
    pub user: UserKey,
    pub entity: EntityKey,
}

/// The place of the room `key` among `rooms`, or their number if there is
/// none.
pub open spec fn spec_find_room(rooms: Seq<RoomView>, key: RoomKey) -> int
    decreases rooms.len(),
{
    if rooms.len() == 0 {
        0
    } else if rooms[0].key == key {
        0
    } else {
        1 + spec_find_room(rooms.skip(1), key)
    }
}

/// The place of the rule on `user` and `entity` among `rules`, or their
/// number if there is none.
pub open spec fn spec_find_rule(rules: Seq<ScopeRule>, user: UserKey, entity: EntityKey) -> int
    decreases rules.len(),
{
    if rules.len() == 0 {
        0
    } else if rules[0].user == user && rules[0].entity == entity {
        0
    } else {
        1 + spec_find_rule(rules.skip(1), user, entity)
    }
}

/// The pairs of `users[user_from..]` with `entities`, the first of them
/// from `entities[entity_from..]` only: user by user, entity by entity.
pub open spec fn spec_pairs(
    room: RoomKey,
    users: Seq<u64>,
    entities: Seq<u64>,
    user_from: nat,
    entity_from: nat,
) -> Seq<ScopeTriple>
    decreases users.len() - user_from, entities.len() - entity_from,
{
    if user_from >= users.len() {
        Seq::empty()
    } else if entity_from >= entities.len() {
        spec_pairs(room, users, entities, user_from + 1, 0)
    } else {
        seq![
            ScopeTriple { room, user: users[user_from as int], entity: entities[entity_from as int] },
        ] + spec_pairs(room, users, entities, user_from, entity_from + 1)
    }
}

/// The rooms of a server and the rules of its host program.
pub struct RoomsView {
    /// The rooms, in the order in which they were made.
    pub rooms: Seq<RoomView>,
    /// The rules, in the order in which they were first given.
    pub rules: Seq<ScopeRule>,
    /// The key that the next room gets.
    pub next_room: u64,
}

impl RoomsView {
    /// No two rooms have one key, the keys in use have been given out, and
    /// no room lists a user or an entity twice.
    pub open spec fn wf(self) -> bool {
        &&& forall|i: int, j: int|
            0 <= i < j < self.rooms.len() ==> (#[trigger] self.rooms[i]).key != (
            #[trigger] self.rooms[j]).key
        &&& forall|i: int|
            0 <= i < self.rooms.len() ==> (#[trigger] self.rooms[i]).key < self.next_room
                && spec_distinct(self.rooms[i].users) && spec_distinct(self.rooms[i].entities)
    }

    /// Whether there is a room `key`.
    pub open spec fn has_room(self, key: RoomKey) -> bool {
        spec_find_room(self.rooms, key) < self.rooms.len()
    }

    /// The room `key`.
    pub open spec fn room(self, key: RoomKey) -> RoomView {
        self.rooms[spec_find_room(self.rooms, key)]
    }

    /// Whether some room holds both `user` and `entity`.
    pub open spec fn shares_room(self, user: UserKey, entity: EntityKey) -> bool {
        exists|i: int|
            0 <= i < self.rooms.len() && spec_has((#[trigger] self.rooms[i]).users, user)
                && spec_has(self.rooms[i].entities, entity)
    }

    /// Whether the host program lets `user` see `entity`: what its rule on
    /// the two says, and yes if it has given none.
    pub open spec fn allowed(self, user: UserKey, entity: EntityKey) -> bool {
        let i = spec_find_rule(self.rules, user, entity);
        i < self.rules.len() ==> self.rules[i].allowed
    }

    /// Whether `entity` is in the scope of `user`: the two share a room, and
    /// the host program allows it.
    pub open spec fn in_scope(self, user: UserKey, entity: EntityKey) -> bool {
        self.shares_room(user, entity) && self.allowed(user, entity)
    }

    /// The state with the room at place `i` replaced.
    pub open spec fn with_room(self, i: int, room: RoomView) -> RoomsView {
        RoomsView { rooms: self.rooms.update(i, room), ..self }
    }

    /// The state after `user` has entered the room `key`.
    pub open spec fn room_add_user(self, key: RoomKey, user: UserKey) -> RoomsView {
        if self.has_room(key) {
            let room = self.room(key);
            self.with_room(
                spec_find_room(self.rooms, key),
                RoomView { users: spec_with(room.users, user), ..room },
            )
        } else {
            self
        }
    }

    /// The state after `user` has left the room `key`.
    pub open spec fn room_remove_user(self, key: RoomKey, user: UserKey) -> RoomsView {
        if self.has_room(key) {
            let room = self.room(key);
            self.with_room(
                spec_find_room(self.rooms, key),
                RoomView { users: spec_without(room.users, user), ..room },
            )
        } else {
            self
        }
    }

    /// The state after `entity` has been put into the room `key`.
    pub open spec fn room_add_entity(self, key: RoomKey, entity: EntityKey) -> RoomsView {
        if self.has_room(key) {
            let room = self.room(key);
            self.with_room(
                spec_find_room(self.rooms, key),
                RoomView { entities: spec_with(room.entities, entity), ..room },
            )
        } else {
            self
        }
    }

    /// The state after `entity` has been taken out of the room `key`.
    pub open spec fn room_remove_entity(self, key: RoomKey, entity: EntityKey) -> RoomsView {
        if self.has_room(key) {
            let room = self.room(key);
            self.with_room(
                spec_find_room(self.rooms, key),
                RoomView { entities: spec_without(room.entities, entity), ..room },
            )
        } else {
            self
        }
    }

    /// The state after the host program has ruled on `user` and `entity`.
    pub open spec fn set_scope(self, user: UserKey, entity: EntityKey, allowed: bool) -> RoomsView {
        let i = spec_find_rule(self.rules, user, entity);
        let rule = ScopeRule { user, entity, allowed };
        RoomsView {
            rules: if i < self.rules.len() {
                self.rules.update(i, rule)
            } else {
                self.rules.push(rule)
            },
            ..self
        }
    }

    /// The state after `user` has left the rooms `from..`.
    pub open spec fn remove_user_from(self, user: UserKey, from: nat) -> RoomsView
        decreases self.rooms.len() - from,
    {
        if from >= self.rooms.len() {
            self
        } else {
            let room = self.rooms[from as int];
            self.with_room(
                from as int,
                RoomView { users: spec_without(room.users, user), ..room },
            ).remove_user_from(user, from + 1)
        }
    }

    /// The state after `entity` has been taken out of the rooms `from..`.
    pub open spec fn remove_entity_from(self, entity: EntityKey, from: nat) -> RoomsView
        decreases self.rooms.len() - from,
    {
        if from >= self.rooms.len() {
            self
        } else {
            let room = self.rooms[from as int];
            self.with_room(
                from as int,
                RoomView { entities: spec_without(room.entities, entity), ..room },
            ).remove_entity_from(entity, from + 1)
        }
    }

    /// The users and entities that share a room, from the room at place
    /// `from` on: room by room, and in each room user by user.
    pub open spec fn scopes_from(self, from: nat) -> Seq<ScopeTriple>
        decreases self.rooms.len() - from,
    {
        if from >= self.rooms.len() {
            Seq::empty()
        } else {
            let room = self.rooms[from as int];
            spec_pairs(room.key, room.users, room.entities, 0, 0) + self.scopes_from(from + 1)
        }
    }
}

/// A room.
pub struct Room {
    key: RoomKey,
    users: KeySet,
    entities: KeySet,
}

impl Room {
    /// What this value is to the contracts.
    pub closed spec fn view(&self) -> RoomView {
        RoomView { key: self.key, users: self.users@, entities: self.entities@ }
    }
}

/// The views of a list of rooms.
pub open spec fn spec_rooms(rooms: Seq<Room>) -> Seq<RoomView> {
    rooms.map_values(|room: Room| room@)
}

/// The rooms of a server and the rules of its host program.
pub struct Rooms {
    rooms: Vec<Room>,
    rules: Vec<ScopeRule>,
    next_room: u64,
}

impl Rooms {
    /// What this value is to the contracts.
    pub closed spec fn view(&self) -> RoomsView {
        RoomsView { rooms: spec_rooms(self.rooms@), rules: self.rules@, next_room: self.next_room }
    }

    /// The value is sound.
    pub open spec fn wf(&self) -> bool {
        self@.wf()
    }

    /// No rooms and no rules.
    pub fn new() -> (rooms: Self)
        ensures
            rooms.wf(),
            rooms@ == (RoomsView { rooms: Seq::empty(), rules: Seq::empty(), next_room: 0 }),
    {
        let rooms = Rooms { rooms: Vec::new(), rules: Vec::new(), next_room: 0 };
        assert(rooms@.rooms =~= Seq::<RoomView>::empty());
        rooms
    }

    /// Makes an empty room. Returns its key, or `None` if the keys have run
    /// out.
    pub fn make_room(&mut self) -> (r: Option<RoomKey>)
        requires
            old(self).wf(),
        ensures
            final(self).wf(),
            match r {
                Some(key) => key == old(self)@.next_room && final(self)@ == (RoomsView {
                    rooms: old(self)@.rooms.push(
                        RoomView { key, users: Seq::empty(), entities: Seq::empty() },
                    ),
                    next_room: (key + 1) as u64,
                    ..old(self)@
                }),
                None => old(self)@.next_room == u64::MAX && final(self)@ == old(self)@,
            },
    {
        if self.next_room == u64::MAX {
            return None;
        }
        let key = self.next_room;
        self.rooms.push(Room { key, users: KeySet::new(), entities: KeySet::new() });
        self.next_room = key + 1;
        assert(self@.rooms =~= old(self)@.rooms.push(
            RoomView { key, users: Seq::empty(), entities: Seq::empty() },
        ));
        Some(key)
    }

    fn find_room(&self, key: RoomKey) -> (i: usize)
        ensures
            i == spec_find_room(self@.rooms, key),
            i <= self.rooms@.len(),
    {
        let mut i: usize = 0;
        let ghost rooms = self@.rooms;
        assert(rooms.skip(0) =~= rooms);
        while i < self.rooms.len()
            invariant
                i <= self.rooms@.len(),
                rooms == self@.rooms,
                spec_find_room(rooms, key) == i + spec_find_room(rooms.skip(i as int), key),
            decreases self.rooms@.len() - i,
        {
            assert(rooms.skip(i as int)[0] == rooms[i as int]);
            assert(rooms.skip(i as int).skip(1) =~= rooms.skip(i + 1));
            if self.rooms[i].key == key {
                return i;
            }
            i = i + 1;
        }
        i
    }

    /// Whether there is a room `key`.
    pub fn has_room(&self, key: RoomKey) -> (found: bool)
        ensures
            found == self@.has_room(key),
    {
        self.find_room(key) < self.rooms.len()
    }

    /// Puts `user` into the room `key`.
    pub fn room_add_user(&mut self, key: RoomKey, user: UserKey)
        requires
            old(self).wf(),
        ensures
            final(self).wf(),
            final(self)@ == old(self)@.room_add_user(key, user),
    {
        let i = self.find_room(key);
        if i < self.rooms.len() {
            let ghost listed = self@.rooms[i as int];
            let mut room = self.rooms.remove(i);
            proof {
                assert(room@ == listed);
                assert(spec_distinct(listed.users));
                lemma_with_without(room.users@, user, user);
            }
            room.users.insert(user);
            self.rooms.insert(i, room);
            assert(self@.rooms =~= old(self)@.room_add_user(key, user).rooms);
        }
    }

    /// Takes `user` out of the room `key`.
    pub fn room_remove_user(&mut self, key: RoomKey, user: UserKey)
        requires
            old(self).wf(),
        ensures
            final(self).wf(),
            final(self)@ == old(self)@.room_remove_user(key, user),
    {
        let i = self.find_room(key);
        if i < self.rooms.len() {
            let ghost listed = self@.rooms[i as int];
            let mut room = self.rooms.remove(i);
            proof {
                assert(room@ == listed);
                assert(spec_distinct(listed.users));
                lemma_with_without(room.users@, user, user);
            }
            room.users.remove(user);
            self.rooms.insert(i, room);
            assert(self@.rooms =~= old(self)@.room_remove_user(key, user).rooms);
        }
    }

    /// Puts `entity` into the room `key`.
    pub fn room_add_entity(&mut self, key: RoomKey, entity: EntityKey)
        requires
            old(self).wf(),
        ensures
            final(self).wf(),
            final(self)@ == old(self)@.room_add_entity(key, entity),
    {
        let i = self.find_room(key);
        if i < self.rooms.len() {
            let ghost listed = self@.rooms[i as int];
            let mut room = self.rooms.remove(i);
            proof {
                assert(room@ == listed);
                assert(spec_distinct(listed.entities));
                lemma_with_without(room.entities@, entity, entity);
            }
            room.entities.insert(entity);
            self.rooms.insert(i, room);
            assert(self@.rooms =~= old(self)@.room_add_entity(key, entity).rooms);
        }
    }

    /// Takes `entity` out of the room `key`.
    pub fn room_remove_entity(&mut self, key: RoomKey, entity: EntityKey)
        requires
            old(self).wf(),
        ensures
            final(self).wf(),
            final(self)@ == old(self)@.room_remove_entity(key, entity),
    {
        let i = self.find_room(key);
        if i < self.rooms.len() {
            let ghost listed = self@.rooms[i as int];
            let mut room = self.rooms.remove(i);
            proof {
                assert(room@ == listed);
                assert(spec_distinct(listed.entities));
                lemma_with_without(room.entities@, entity, entity);
            }
            room.entities.remove(entity);
            self.rooms.insert(i, room);
            assert(self@.rooms =~= old(self)@.room_remove_entity(key, entity).rooms);
        }
    }

    /// Takes `user` out of every room.
    pub fn remove_user(&mut self, user: UserKey)
        requires
            old(self).wf(),
        ensures
            final(self).wf(),
            final(self)@ == old(self)@.remove_user_from(user, 0),
    {
        let mut i: usize = 0;
        while i < self.rooms.len()
            invariant
                i <= self.rooms@.len(),
                self.wf(),
                self@.remove_user_from(user, i as nat) == old(self)@.remove_user_from(user, 0),
            decreases self.rooms@.len() - i,
        {
            let ghost before = self@;
            let ghost listed = self@.rooms[i as int];
            let mut room = self.rooms.remove(i);
            proof {
                assert(room@ == listed);
                assert(spec_distinct(listed.users));
                lemma_with_without(room.users@, user, user);
            }
            room.users.remove(user);
            self.rooms.insert(i, room);
            proof {
                let old_room = before.rooms[i as int];
                let stepped = before.with_room(
                    i as int,
                    RoomView { users: spec_without(old_room.users, user), ..old_room },
                );
                assert(self@.rooms =~= stepped.rooms);
            }
            i = i + 1;
        }
    }

    /// Takes `entity` out of every room.
    pub fn remove_entity(&mut self, entity: EntityKey)
        requires
            old(self).wf(),
        ensures
            final(self).wf(),
            final(self)@ == old(self)@.remove_entity_from(entity, 0),
    {
        let mut i: usize = 0;
        while i < self.rooms.len()
            invariant
                i <= self.rooms@.len(),
                self.wf(),
                self@.remove_entity_from(entity, i as nat) == old(self)@.remove_entity_from(
                    entity,
                    0,
                ),
            decreases self.rooms@.len() - i,
        {
            let ghost before = self@;
            let ghost listed = self@.rooms[i as int];
            let mut room = self.rooms.remove(i);
            proof {
                assert(room@ == listed);
                assert(spec_distinct(listed.entities));
                lemma_with_without(room.entities@, entity, entity);
            }
            room.entities.remove(entity);
            self.rooms.insert(i, room);
            proof {
                let old_room = before.rooms[i as int];
                let stepped = before.with_room(
                    i as int,
                    RoomView { entities: spec_without(old_room.entities, entity), ..old_room },
                );
                assert(self@.rooms =~= stepped.rooms);
            }
            i = i + 1;
        }
    }

    /// Rules that `user` may, or may not, see `entity`.
    pub fn set_scope(&mut self, user: UserKey, entity: EntityKey, allowed: bool)
        ensures
            final(self)@ == old(self)@.set_scope(user, entity, allowed),
            old(self).wf() ==> final(self).wf(),
    {
        let i = self.find_rule(user, entity);
        let rule = ScopeRule { user, entity, allowed };
        if i < self.rules.len() {
            self.rules[i] = rule;
        } else {
            self.rules.push(rule);
        }
        proof {
            assert(self@.rooms == old(self)@.rooms);
        }
    }

    fn find_rule(&self, user: UserKey, entity: EntityKey) -> (i: usize)
        ensures
            i == spec_find_rule(self.rules@, user, entity),
            i <= self.rules@.len(),
    {
        let mut i: usize = 0;
        assert(self.rules@.skip(0) =~= self.rules@);
        while i < self.rules.len()
            invariant
                i <= self.rules@.len(),
                spec_find_rule(self.rules@, user, entity) == i + spec_find_rule(
                    self.rules@.skip(i as int),
                    user,
                    entity,
                ),
            decreases self.rules@.len() - i,
        {
            assert(self.rules@.skip(i as int)[0] == self.rules@[i as int]);
            assert(self.rules@.skip(i as int).skip(1) =~= self.rules@.skip(i + 1));
            if self.rules[i].user == user && self.rules[i].entity == entity {
                return i;
            }
            i = i + 1;
        }
        i
    }

    /// Whether `entity` is in the scope of `user`.
    pub fn in_scope(&self, user: UserKey, entity: EntityKey) -> (scoped: bool)
        ensures
            scoped == self@.in_scope(user, entity),
    {
        let i = self.find_rule(user, entity);
        if i < self.rules.len() && !self.rules[i].allowed {
            return false;
        }
        let mut r: usize = 0;
        while r < self.rooms.len()
            invariant
                r <= self.rooms@.len(),
                self@.allowed(user, entity),
                forall|j: int|
                    0 <= j < r ==> !(spec_has((#[trigger] self@.rooms[j]).users, user)
                        && spec_has(self@.rooms[j].entities, entity)),
            decreases self.rooms@.len() - r,
        {
            if self.rooms[r].users.contains(user) && self.rooms[r].entities.contains(entity) {
                assert(spec_has(self@.rooms[r as int].users, user) && spec_has(
                    self@.rooms[r as int].entities,
                    entity,
                ));
                assert(self@.shares_room(user, entity));
                return true;
            }
            r = r + 1;
        }
        false
    }

    /// The users and entities that share a room: for the host program to
    /// rule on.
    pub fn scopes(&self) -> (triples: Vec<ScopeTriple>)
        ensures
            triples@ == self@.scopes_from(0),
    {
        let mut triples: Vec<ScopeTriple> = Vec::new();
        let mut r: usize = 0;
        while r < self.rooms.len()
            invariant
                r <= self.rooms@.len(),
                triples@ + self@.scopes_from(r as nat) == self@.scopes_from(0),
            decreases self.rooms@.len() - r,
        {
            let room = &self.rooms[r];
            let ghost view = self@.rooms[r as int];
            let ghost before = triples@;
            let ghost later = self@.scopes_from((r + 1) as nat);
            let mut u: usize = 0;
            while u < room.users.len()
                invariant
                    u <= room.users@.len(),
                    view == room@,
                    triples@ + spec_pairs(view.key, view.users, view.entities, u as nat, 0)
                        == before + spec_pairs(view.key, view.users, view.entities, 0, 0),
                decreases room.users@.len() - u,
            {
                let user = room.users.get(u);
                let mut e: usize = 0;
                while e < room.entities.len()
                    invariant
                        e <= room.entities@.len(),
                        u < room.users@.len(),
                        view == room@,
                        user == view.users[u as int],
                        triples@ + spec_pairs(
                            view.key,
                            view.users,
                            view.entities,
                            u as nat,
                            e as nat,
                        ) == before + spec_pairs(view.key, view.users, view.entities, 0, 0),
                    decreases room.entities@.len() - e,
                {
                    let ghost sofar = triples@;
                    let ghost rest = spec_pairs(
                        view.key,
                        view.users,
                        view.entities,
                        u as nat,
                        (e + 1) as nat,
                    );
                    let triple = ScopeTriple { room: room.key, user, entity: room.entities.get(e) };
                    triples.push(triple);
                    assert(sofar.push(triple) + rest =~= sofar + (seq![triple] + rest));
                    e = e + 1;
                }
                u = u + 1;
            }
            proof {
                let pairs = spec_pairs(view.key, view.users, view.entities, 0, 0);
                assert(triples@ + Seq::<ScopeTriple>::empty() =~= triples@);
                assert((before + pairs) + later =~= before + (pairs + later));
            }
            r = r + 1;
        }
        assert(triples@ + Seq::<ScopeTriple>::empty() =~= triples@);
        triples
    }
}

} // verus!
