//! The life of a connection: the handshake, the authorization, the
//! heartbeats that keep it up and the silence that ends it.

use vstd::prelude::*;
use crate::server::keys::UserKey;
use crate::server::user::{Address, User};

verus! {

/// Where a connection stands.
#[derive(Clone, Copy, Debug, PartialEq, Eq, Structural)]
pub enum ConnectionPhase {
    /// No handshake has been received yet.
    Handshaking,
    /// The handshake is done; the host program has yet to accept or reject
    /// the user.
    Authorizing,
    /// The user is connected.
    Connected,
    /// The connection has ended.
    Disconnected,
}

/// The times, in milliseconds, that rule the life of a connection.
#[derive(Clone, Copy, Debug, PartialEq, Eq, Structural)]
pub struct ConnectionConfig {
    /// After so much time without sending, a heartbeat is sent.
    pub heartbeat_interval: u64,
    /// After so much time without hearing, the connection is ended.
    pub disconnect_timeout: u64,
    /// Whether users wait for the host program to accept them.
    pub require_auth: bool,
}

impl ConnectionConfig {
    /// The timeout gives a heartbeat at least two chances.
    pub open spec fn valid(self) -> bool {
        self.disconnect_timeout >= 2 * self.heartbeat_interval
    }

    /// A configuration with the given times, unless the timeout is less than
    /// twice the heartbeat interval.
    pub fn new(heartbeat_interval: u64, disconnect_timeout: u64, require_auth: bool) -> (r: Option<
        Self,
    >)
        ensures
            r == (if disconnect_timeout >= 2 * heartbeat_interval {
                Some(ConnectionConfig { heartbeat_interval, disconnect_timeout, require_auth })
            } else {
                None
            }),
            r matches Some(config) ==> config.valid(),
    {
        if disconnect_timeout / 2 >= heartbeat_interval {
            Some(ConnectionConfig { heartbeat_interval, disconnect_timeout, require_auth })
        } else {
            None
        }
    }
}

/// What the server keeps of one connection.
#[derive(Clone, Copy, Debug, PartialEq, Eq, Structural)]
pub struct ConnectionRecord {
    pub user: UserKey,
    pub address: Address,
    pub timestamp: u64,
    pub phase: ConnectionPhase,
    /// When a packet of the user was last received.
    pub last_heard: u64,
    /// When a packet was last sent to the user.
    pub last_sent: u64,
}

/// A user whose connection has ended, with what was known of it.
#[derive(Clone, Copy, Debug, PartialEq, Eq, Structural)]
pub struct Departed {
    pub key: UserKey,
    pub user: User,
}

/// What a handshake packet led to.
#[derive(Clone, Copy, Debug, PartialEq, Eq, Structural)]
pub struct HandshakeOutcome {
    /// The user whose connection the handshake replaced, with what was
    /// known of it: the host program is told that it is disconnected.
    pub replaced: Option<Departed>,
    /// The user that the handshake belongs to; the handshake is answered.
    /// `None` if the server has run out of user keys.
    pub user: Option<UserKey>,
    /// Whether the user became connected by this handshake: the host
    /// program is told of the connection.
    pub established: bool,
}

/// What the passing of time asks for, for one connection.
#[derive(Clone, Copy, Debug, PartialEq, Eq, Structural)]
pub enum SweepAction {
    /// Nothing was heard for too long: the connection is ended, and the host
    /// program is told.
    Disconnect(UserKey, User),
    /// Nothing was sent for a while: a heartbeat is to be sent.
    Heartbeat(UserKey, Address),
}

/// The time from `then` to `now`; none if `now` is the earlier.
pub open spec fn spec_elapsed(then: u64, now: u64) -> int {
    if now >= then {
        now - then
    } else {
        0
    }
}

/// The place of the record of `address` among `records`, or their number if
/// there is none.
pub open spec fn spec_find_address(records: Seq<ConnectionRecord>, address: Address) -> int
    decreases records.len(),
{
    if records.len() == 0 {
        0
    } else if records[0].address == address {
        0
    } else {
        1 + spec_find_address(records.skip(1), address)
    }
}

/// The place of the record of `user` among `records`, or their number if
/// there is none.
pub open spec fn spec_find_user(records: Seq<ConnectionRecord>, user: UserKey) -> int
    decreases records.len(),
{
    if records.len() == 0 {
        0
    } else if records[0].user == user {
        0
    } else {
        1 + spec_find_user(records.skip(1), user)
    }
}

/// What is found is in the list and is the first of its kind.
pub proof fn lemma_find(records: Seq<ConnectionRecord>, address: Address, user: UserKey)
    ensures
        0 <= spec_find_address(records, address) <= records.len(),
        spec_find_address(records, address) < records.len() ==> records[spec_find_address(
            records,
            address,
        )].address == address,
        forall|i: int|
            0 <= i < spec_find_address(records, address) ==> (#[trigger] records[i]).address
                != address,
        0 <= spec_find_user(records, user) <= records.len(),
        spec_find_user(records, user) < records.len() ==> records[spec_find_user(
            records,
            user,
        )].user == user,
        forall|i: int|
            0 <= i < spec_find_user(records, user) ==> (#[trigger] records[i]).user != user,
    decreases records.len(),
{
    if records.len() > 0 {
        lemma_find(records.skip(1), address, user);
        assert forall|i: int| 0 <= i < spec_find_address(records, address) implies (
        #[trigger] records[i]).address != address by {
            if i > 0 {
                assert(records.skip(1)[i - 1] == records[i]);
            }
        }
        assert forall|i: int| 0 <= i < spec_find_user(records, user) implies (
        #[trigger] records[i]).user != user by {
            if i > 0 {
                assert(records.skip(1)[i - 1] == records[i]);
            }
        }
    }
}

/// The connections of a server.
pub struct ConnectionsView {
    /// The records, in the order in which the connections were made.
    pub records: Seq<ConnectionRecord>,
    /// The key that the next user gets.
    pub next_user: u64,
    pub config: ConnectionConfig,
}

/// A state of the connections, and what a handshake led to.
pub struct Handshaken {
    pub state: ConnectionsView,
    pub outcome: HandshakeOutcome,
}

/// A state of the connections, and what the passing of time asked for.
pub struct Swept {
    pub state: ConnectionsView,
    pub actions: Seq<SweepAction>,
}

impl ConnectionsView {
    /// No two records are of one address or of one user, and the keys in
    /// use have all been given out.
    pub open spec fn wf(self) -> bool {
        &&& forall|i: int, j: int|
            0 <= i < j < self.records.len() ==> (#[trigger] self.records[i]).address != (
            #[trigger] self.records[j]).address && self.records[i].user != self.records[j].user
        &&& forall|i: int|
            0 <= i < self.records.len() ==> (#[trigger] self.records[i]).user < self.next_user
    }

    /// Whether `address` has a connection.
    pub open spec fn knows_address(self, address: Address) -> bool {
        spec_find_address(self.records, address) < self.records.len()
    }

    /// Whether `user` has a connection.
    pub open spec fn knows_user(self, user: UserKey) -> bool {
        spec_find_user(self.records, user) < self.records.len()
    }

    /// The record of `user`.
    pub open spec fn record_of(self, user: UserKey) -> ConnectionRecord {
        self.records[spec_find_user(self.records, user)]
    }

    /// Where the connection of `user` stands. A key that was never given
    /// out is still to shake hands; one that was given out and has no
    /// record is disconnected.
    pub open spec fn phase_of(self, user: UserKey) -> ConnectionPhase {
        if self.knows_user(user) {
            self.record_of(user).phase
        } else if user < self.next_user {
            ConnectionPhase::Disconnected
        } else {
            ConnectionPhase::Handshaking
        }
    }

    /// The record of a user that shakes hands at `now`.
    pub open spec fn fresh(self, address: Address, timestamp: u64, now: u64) -> ConnectionRecord {
        ConnectionRecord {
            user: self.next_user,
            address,
            timestamp,
            phase: if self.config.require_auth {
                ConnectionPhase::Authorizing
            } else {
                ConnectionPhase::Connected
            },
            last_heard: now,
            last_sent: now,
        }
    }

    /// The state after a handshake packet with `timestamp` has come from
    /// `address` at `now`.
    ///
    /// From an address without a connection, it makes one. With the
    /// timestamp of the connection that the address has, it is answered
    /// again and changes nothing else. With another timestamp, the host has
    /// started anew: the old connection is ended and a new one made.
    pub open spec fn handshake(self, address: Address, timestamp: u64, now: u64) -> Handshaken {
        let i = spec_find_address(self.records, address);
        if i < self.records.len() && self.records[i].timestamp == timestamp {
            Handshaken {
                state: ConnectionsView {
                    records: self.records.update(
                        i,
                        ConnectionRecord { last_heard: now, last_sent: now, ..self.records[i] },
                    ),
                    ..self
                },
                outcome: HandshakeOutcome {
                    replaced: None,
                    user: Some(self.records[i].user),
                    established: false,
                },
            }
        } else {
            let replaced = if i < self.records.len() {
                Some(
                    Departed {
                        key: self.records[i].user,
                        user: User { address, timestamp: self.records[i].timestamp },
                    },
                )
            } else {
                None
            };
            let kept = if i < self.records.len() {
                self.records.remove(i)
            } else {
                self.records
            };
            if self.next_user == u64::MAX {
                Handshaken {
                    state: ConnectionsView { records: kept, ..self },
                    outcome: HandshakeOutcome { replaced, user: None, established: false },
                }
            } else {
                Handshaken {
                    state: ConnectionsView {
                        records: kept.push(self.fresh(address, timestamp, now)),
                        next_user: (self.next_user + 1) as u64,
                        ..self
                    },
                    outcome: HandshakeOutcome {
                        replaced,
                        user: Some(self.next_user),
                        established: !self.config.require_auth,
                    },
                }
            }
        }
    }

    /// The state after a packet has come from `address` at `now`.
    pub open spec fn heard(self, address: Address, now: u64) -> ConnectionsView {
        let i = spec_find_address(self.records, address);
        if i < self.records.len() {
            ConnectionsView {
                records: self.records.update(
                    i,
                    ConnectionRecord { last_heard: now, ..self.records[i] },
                ),
                ..self
            }
        } else {
            self
        }
    }

    /// The state after a packet has been sent to `user` at `now`.
    pub open spec fn sent(self, user: UserKey, now: u64) -> ConnectionsView {
        let i = spec_find_user(self.records, user);
        if i < self.records.len() {
            ConnectionsView {
                records: self.records.update(
                    i,
                    ConnectionRecord { last_sent: now, ..self.records[i] },
                ),
                ..self
            }
        } else {
            self
        }
    }

    /// The state after the host program has accepted `user`.
    pub open spec fn accept(self, user: UserKey) -> ConnectionsView {
        let i = spec_find_user(self.records, user);
        if i < self.records.len() && self.records[i].phase == ConnectionPhase::Authorizing {
            ConnectionsView {
                records: self.records.update(
                    i,
                    ConnectionRecord { phase: ConnectionPhase::Connected, ..self.records[i] },
                ),
                ..self
            }
        } else {
            self
        }
    }

    /// The state after the connection of `user` has been dropped.
    pub open spec fn remove(self, user: UserKey) -> ConnectionsView {
        let i = spec_find_user(self.records, user);
        if i < self.records.len() {
            ConnectionsView { records: self.records.remove(i), ..self }
        } else {
            self
        }
    }

    /// Whether the connection of `record` has been silent for too long at
    /// `now`.
    pub open spec fn timed_out(self, record: ConnectionRecord, now: u64) -> bool {
        spec_elapsed(record.last_heard, now) >= self.config.disconnect_timeout
    }

    /// Whether a heartbeat is due on the connection of `record` at `now`.
    pub open spec fn heartbeat_due(self, record: ConnectionRecord, now: u64) -> bool {
        record.phase == ConnectionPhase::Connected && spec_elapsed(record.last_sent, now)
            >= self.config.heartbeat_interval
    }

    /// What the passing of time asks for at `now`, from the record at place
    /// `from` on: connections that were silent for too long are ended;
    /// connected users to whom nothing was sent for a while get a heartbeat.
    pub open spec fn sweep_from(self, now: u64, from: nat, actions: Seq<SweepAction>) -> Swept
        decreases self.records.len() - from,
    {
        if from >= self.records.len() {
            Swept { state: self, actions }
        } else {
            let record = self.records[from as int];
            if self.timed_out(record, now) {
                (ConnectionsView { records: self.records.remove(from as int), ..self }).sweep_from(
                    now,
                    from,
                    actions.push(
                        SweepAction::Disconnect(
                            record.user,
                            User { address: record.address, timestamp: record.timestamp },
                        ),
                    ),
                )
            } else if self.heartbeat_due(record, now) {
                (ConnectionsView {
                    records: self.records.update(
                        from as int,
                        ConnectionRecord { last_sent: now, ..record },
                    ),
                    ..self
                }).sweep_from(
                    now,
                    from + 1,
                    actions.push(SweepAction::Heartbeat(record.user, record.address)),
                )
            } else {
                self.sweep_from(now, from + 1, actions)
            }
        }
    }

    /// What the passing of time asks for at `now`.
    pub open spec fn sweep(self, now: u64) -> Swept {
        self.sweep_from(now, 0, Seq::empty())
    }
}

/// The connections of a server.
pub struct ConnectionTable {
    records: Vec<ConnectionRecord>,
    next_user: u64,
    config: ConnectionConfig,
}

impl ConnectionTable {
    /// What this value is to the contracts.
    pub closed spec fn view(&self) -> ConnectionsView {
        ConnectionsView { records: self.records@, next_user: self.next_user, config: self.config }
    }

    /// The value is sound.
    pub open spec fn wf(&self) -> bool {
        self@.wf()
    }

    /// A table without connections.
    pub fn new(config: ConnectionConfig) -> (table: Self)
        ensures
            table.wf(),
            table@ == (ConnectionsView { records: Seq::empty(), next_user: 0, config }),
    {
        ConnectionTable { records: Vec::new(), next_user: 0, config }
    }

    fn find_address(&self, address: &Address) -> (i: usize)
        ensures
            i == spec_find_address(self.records@, *address),
            i <= self.records@.len(),
    {
        let mut i: usize = 0;
        assert(self.records@.skip(0) =~= self.records@);
        while i < self.records.len()
            invariant
                i <= self.records@.len(),
                spec_find_address(self.records@, *address) == i + spec_find_address(
                    self.records@.skip(i as int),
                    *address,
                ),
            decreases self.records@.len() - i,
        {
            assert(self.records@.skip(i as int)[0] == self.records@[i as int]);
            assert(self.records@.skip(i as int).skip(1) =~= self.records@.skip(i + 1));
            let record = &self.records[i];
            if record.address.ip == address.ip && record.address.port == address.port {
                return i;
            }
            i = i + 1;
        }
        i
    }

    fn find_user(&self, user: UserKey) -> (i: usize)
        ensures
            i == spec_find_user(self.records@, user),
            i <= self.records@.len(),
    {
        let mut i: usize = 0;
        assert(self.records@.skip(0) =~= self.records@);
        while i < self.records.len()
            invariant
                i <= self.records@.len(),
                spec_find_user(self.records@, user) == i + spec_find_user(
                    self.records@.skip(i as int),
                    user,
                ),
            decreases self.records@.len() - i,
        {
            assert(self.records@.skip(i as int)[0] == self.records@[i as int]);
            assert(self.records@.skip(i as int).skip(1) =~= self.records@.skip(i + 1));
            if self.records[i].user == user {
                return i;
            }
            i = i + 1;
        }
        i
    }

    /// The user that is connected from `address`.
    pub fn user_at(&self, address: &Address) -> (r: Option<UserKey>)
        ensures
            r == (if self@.knows_address(*address) {
                Some(self@.records[spec_find_address(self@.records, *address)].user)
            } else {
                None
            }),
    {
        let i = self.find_address(address);
        if i < self.records.len() {
            Some(self.records[i].user)
        } else {
            None
        }
    }

    /// What the server knows of `user`.
    pub fn get_user(&self, user: UserKey) -> (r: Option<User>)
        ensures
            r == (if self@.knows_user(user) {
                Some(
                    User {
                        address: self@.record_of(user).address,
                        timestamp: self@.record_of(user).timestamp,
                    },
                )
            } else {
                None
            }),
    {
        let i = self.find_user(user);
        if i < self.records.len() {
            Some(User::new(self.records[i].address, self.records[i].timestamp))
        } else {
            None
        }
    }

    /// Where the connection of `user` stands.
    pub fn phase(&self, user: UserKey) -> (phase: ConnectionPhase)
        ensures
            phase == self@.phase_of(user),
    {
        let i = self.find_user(user);
        if i < self.records.len() {
            self.records[i].phase
        } else if user < self.next_user {
            ConnectionPhase::Disconnected
        } else {
            ConnectionPhase::Handshaking
        }
    }

    /// How many connections there are.
    pub fn len(&self) -> (n: usize)
        ensures
            n == self@.records.len(),
    {
        self.records.len()
    }

    /// Where the user of the connection at place `index` is reached.
    pub fn address_at(&self, index: usize) -> (address: Address)
        requires
            index < self@.records.len(),
        ensures
            address == self@.records[index as int].address,
    {
        self.records[index].address
    }

    /// The user of the connection at place `index`.
    pub fn user_key_at(&self, index: usize) -> (user: UserKey)
        requires
            index < self@.records.len(),
        ensures
            user == self@.records[index as int].user,
    {
        self.records[index].user
    }

    /// Takes in a handshake packet with `timestamp` that has come from
    /// `address` at `now`.
    pub fn handshake(&mut self, address: Address, timestamp: u64, now: u64) -> (outcome:
        HandshakeOutcome)
        requires
            old(self).wf(),
        ensures
            final(self).wf(),
            final(self)@ == old(self)@.handshake(address, timestamp, now).state,
            outcome == old(self)@.handshake(address, timestamp, now).outcome,
    {
        let i = self.find_address(&address);
        proof {
            lemma_find(self.records@, address, 0);
        }
        if i < self.records.len() && self.records[i].timestamp == timestamp {
            let record = self.records[i];
            self.records[i] = ConnectionRecord { last_heard: now, last_sent: now, ..record };
            return HandshakeOutcome { replaced: None, user: Some(record.user), established: false };
        }
        let replaced = if i < self.records.len() {
            let record = self.records.remove(i);
            Some(Departed { key: record.user, user: User::new(address, record.timestamp) })
        } else {
            None
        };
        if self.next_user == u64::MAX {
            return HandshakeOutcome { replaced, user: None, established: false };
        }
        let user = self.next_user;
        let phase = if self.config.require_auth {
            ConnectionPhase::Authorizing
        } else {
            ConnectionPhase::Connected
        };
        self.records.push(
            ConnectionRecord { user, address, timestamp, phase, last_heard: now, last_sent: now },
        );
        self.next_user = user + 1;
        HandshakeOutcome { replaced, user: Some(user), established: !self.config.require_auth }
    }

    /// Notes that a packet has come from `address` at `now`. Returns the
    /// user that is connected from there.
    pub fn heard(&mut self, address: &Address, now: u64) -> (r: Option<UserKey>)
        requires
            old(self).wf(),
        ensures
            final(self).wf(),
            final(self)@ == old(self)@.heard(*address, now),
            r == (if old(self)@.knows_address(*address) {
                Some(old(self)@.records[spec_find_address(old(self)@.records, *address)].user)
            } else {
                None
            }),
    {
        let i = self.find_address(address);
        if i < self.records.len() {
            let record = self.records[i];
            self.records[i] = ConnectionRecord { last_heard: now, ..record };
            Some(record.user)
        } else {
            None
        }
    }

    /// Notes that a packet has been sent to `user` at `now`.
    pub fn sent(&mut self, user: UserKey, now: u64)
        requires
            old(self).wf(),
        ensures
            final(self).wf(),
            final(self)@ == old(self)@.sent(user, now),
    {
        let i = self.find_user(user);
        if i < self.records.len() {
            let record = self.records[i];
            self.records[i] = ConnectionRecord { last_sent: now, ..record };
        }
    }

    /// Accepts a user that waits to be authorized. Returns whether the user
    /// became connected by this.
    pub fn accept_connection(&mut self, user: UserKey) -> (established: bool)
        requires
            old(self).wf(),
        ensures
            final(self).wf(),
            final(self)@ == old(self)@.accept(user),
            established == (old(self)@.phase_of(user) == ConnectionPhase::Authorizing),
    {
        let i = self.find_user(user);
        if i < self.records.len() && self.records[i].phase == ConnectionPhase::Authorizing {
            let record = self.records[i];
            self.records[i] = ConnectionRecord { phase: ConnectionPhase::Connected, ..record };
            true
        } else {
            assert(self.records@ =~= old(self)@.accept(user).records);
            false
        }
    }

    /// Rejects a user that waits to be authorized: the connection is
    /// dropped. Returns where the rejection is to be sent.
    pub fn reject_connection(&mut self, user: UserKey) -> (r: Option<Address>)
        requires
            old(self).wf(),
        ensures
            final(self).wf(),
            final(self)@ == (if old(self)@.phase_of(user) == ConnectionPhase::Authorizing {
                old(self)@.remove(user)
            } else {
                old(self)@
            }),
            r == (if old(self)@.phase_of(user) == ConnectionPhase::Authorizing {
                Some(old(self)@.record_of(user).address)
            } else {
                None
            }),
    {
        let i = self.find_user(user);
        if i < self.records.len() && self.records[i].phase == ConnectionPhase::Authorizing {
            let record = self.records.remove(i);
            Some(record.address)
        } else {
            None
        }
    }

    /// Drops the connection of `user`. Returns what was known of the user.
    pub fn disconnect(&mut self, user: UserKey) -> (r: Option<User>)
        requires
            old(self).wf(),
        ensures
            final(self).wf(),
            final(self)@ == old(self)@.remove(user),
            r == (if old(self)@.knows_user(user) {
                Some(
                    User {
                        address: old(self)@.record_of(user).address,
                        timestamp: old(self)@.record_of(user).timestamp,
                    },
                )
            } else {
                None
            }),
    {
        let i = self.find_user(user);
        if i < self.records.len() {
            let record = self.records.remove(i);
            Some(User::new(record.address, record.timestamp))
        } else {
            None
        }
    }

    /// Lets time pass: ends the connections that were silent for the
    /// timeout, and names the connected users that are due a heartbeat,
    /// which counts as sent.
    pub fn sweep(&mut self, now: u64) -> (actions: Vec<SweepAction>)
        requires
            old(self).wf(),
        ensures
            final(self).wf(),
            final(self)@ == old(self)@.sweep(now).state,
            actions@ == old(self)@.sweep(now).actions,
    {
        let mut actions: Vec<SweepAction> = Vec::new();
        let mut i: usize = 0;
        while i < self.records.len()
            invariant
                i <= self.records@.len(),
                self.wf(),
                self@.sweep_from(now, i as nat, actions@) == old(self)@.sweep(now),
            decreases self.records@.len() - i,
        {
            let record = self.records[i];
            let silent = if now >= record.last_heard {
                now - record.last_heard
            } else {
                0
            };
            let idle = if now >= record.last_sent {
                now - record.last_sent
            } else {
                0
            };
            if silent >= self.config.disconnect_timeout {
                self.records.remove(i);
                actions.push(
                    SweepAction::Disconnect(record.user, User::new(record.address, record.timestamp)),
                );
            } else if record.phase == ConnectionPhase::Connected && idle
                >= self.config.heartbeat_interval {
                self.records[i] = ConnectionRecord { last_sent: now, ..record };
                actions.push(SweepAction::Heartbeat(record.user, record.address));
                i = i + 1;
            } else {
                i = i + 1;
            }
        }
        actions
    }
}

} // verus!
