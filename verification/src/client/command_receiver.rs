//! The commands that the client has issued for its pawns: those waiting to be
//! run, those kept in case they must be run again, and those being run again
//! after the server has corrected a pawn.

use vstd::prelude::*;
use std::collections::{HashMap, VecDeque};
use crate::client::client_view::ClientView;
use crate::client::replica_manager::{LocalEntityKey, ReplicaManager};
use crate::protocol_type::ProtocolType;
use crate::sequence_buffer::{
    SequenceBuffer, lemma_ticks_held, lemma_ticks_len, spec_accepts, spec_advance, spec_head_tick, spec_insert,
    spec_remove_until,
    spec_ticks_from,
};
use crate::wire::ReplicaView;
use crate::wrapping_number::{spec_wrapping_diff, wrapping_diff};

verus! {

/// How many ticks of commands are kept for each pawn.
pub const COMMAND_HISTORY_SIZE: u16 = 64;

/// A command in a queue.
pub struct QueuedCommand<P> {
    pub tick: u16,
    pub pawn: u16,
    pub command: P,
}

/// A queued command, with the command taken by its view.
pub struct CommandView {
    pub tick: u16,
    pub pawn: u16,
    pub command: ReplicaView,
}

/// The commands kept for one pawn.
pub struct HistoryView {
    /// The newest tick for which a command was stored; none before the
    /// first command.
    pub head: Option<u16>,
    /// The commands, by tick.
    pub entries: Map<u16, ReplicaView>,
}

/// A request to run the commands of a pawn again, from a tick on.
#[derive(Clone, Copy, Debug, PartialEq, Eq, Structural)]
pub struct ReplayTrigger {
    pub pawn: u16,
    pub tick: u16,
}

/// What the command receiver holds.
pub struct CommandReceiverView {
    /// The commands to run this frame, oldest first.
    pub incoming: Seq<CommandView>,
    /// The commands to run again, oldest first.
    pub replays: Seq<CommandView>,
    /// The history of each pawn.
    pub history: Map<u16, HistoryView>,
    /// The replays asked for, in the order in which pawns were first named.
    pub triggers: Seq<ReplayTrigger>,
}

impl HistoryView {
    /// The history after a command has been stored under `tick`. The first
    /// command of a pawn is stored whatever its tick; after that a tick that
    /// is 64 or more behind the head is not stored.
    pub open spec fn insert(self, tick: u16, command: ReplicaView) -> HistoryView {
        if spec_accepts(self.head, COMMAND_HISTORY_SIZE as nat, tick) {
            HistoryView {
                head: Some(spec_advance(self.head, tick)),
                entries: spec_insert(
                    self.entries,
                    self.head,
                    COMMAND_HISTORY_SIZE as nat,
                    tick,
                    command,
                ),
            }
        } else {
            self
        }
    }

    /// The history without the commands of `tick` and earlier.
    pub open spec fn remove_until(self, tick: u16) -> HistoryView {
        HistoryView { head: self.head, entries: spec_remove_until(self.entries, tick) }
    }

    /// The commands of `pawn` stored under the ticks `from`, `from + 1`, and
    /// so on for `count` ticks, oldest first.
    pub open spec fn replay(self, pawn: u16, from: u16, count: nat) -> Seq<CommandView>
        decreases count,
    {
        if count == 0 {
            Seq::empty()
        } else {
            let next = ((from as int + 1) % 65536) as u16;
            let rest = self.replay(pawn, next, (count - 1) as nat);
            if self.entries.contains_key(from) {
                seq![CommandView { tick: from, pawn, command: self.entries[from] }] + rest
            } else {
                rest
            }
        }
    }

    /// The ticks for which a command is held, oldest first, or newest first
    /// if `reverse`.
    pub open spec fn ticks(self, reverse: bool) -> Seq<u16> {
        let ordered = spec_ticks_from(
            self.entries,
            spec_head_tick(self.head),
            COMMAND_HISTORY_SIZE as nat,
        );
        if reverse {
            ordered.reverse()
        } else {
            ordered
        }
    }

    /// The commands of `pawn` that are held under `ticks`, in that order.
    pub open spec fn commands_at(self, pawn: u16, ticks: Seq<u16>) -> Seq<CommandView> {
        ticks.map_values(|tick: u16| CommandView { tick, pawn, command: self.entries[tick] })
    }

    /// The commands of `pawn` from tick `from` up to the head, oldest first.
    /// There are none if `from` is later than the head, or if no command was
    /// stored yet.
    pub open spec fn replay_from(self, pawn: u16, from: u16) -> Seq<CommandView> {
        match self.head {
            Some(head) => if spec_wrapping_diff(from, head) < 0 {
                Seq::empty()
            } else {
                self.replay(pawn, from, (spec_wrapping_diff(from, head) + 1) as nat)
            },
            None => Seq::empty(),
        }
    }
}

/// The place of `pawn` among `triggers`, or their number if it is not there.
pub open spec fn spec_trigger_index(triggers: Seq<ReplayTrigger>, pawn: u16) -> int
    decreases triggers.len(),
{
    if triggers.len() == 0 {
        0
    } else if triggers[0].pawn == pawn {
        0
    } else {
        1 + spec_trigger_index(triggers.skip(1), pawn)
    }
}

/// Where `pawn` stands among `triggers`, it is the first trigger of that pawn.
pub proof fn lemma_trigger_index(triggers: Seq<ReplayTrigger>, pawn: u16)
    ensures
        0 <= spec_trigger_index(triggers, pawn) <= triggers.len(),
        spec_trigger_index(triggers, pawn) < triggers.len() ==> triggers[spec_trigger_index(
            triggers,
            pawn,
        )].pawn == pawn,
        forall|k: int|
            0 <= k < spec_trigger_index(triggers, pawn) ==> (#[trigger] triggers[k]).pawn != pawn,
    decreases triggers.len(),
{
    if triggers.len() > 0 && triggers[0].pawn != pawn {
        let rest = triggers.skip(1);
        lemma_trigger_index(rest, pawn);
        let at = spec_trigger_index(rest, pawn);
        assert forall|k: int| 0 <= k < 1 + at implies (#[trigger] triggers[k]).pawn != pawn by {
            if k > 0 {
                assert(triggers[k] == rest[k - 1]);
            }
        }
        if at < rest.len() {
            assert(triggers[1 + at] == rest[at]);
        }
    }
}

/// No two of `triggers` are for one pawn.
pub open spec fn spec_distinct_pawns(triggers: Seq<ReplayTrigger>) -> bool {
    forall|i: int, j: int|
        #![trigger triggers[i], triggers[j]]
        0 <= i < j < triggers.len() ==> triggers[i].pawn != triggers[j].pawn
}

impl CommandReceiverView {
    /// No pawn has two triggers.
    pub open spec fn triggers_distinct(self) -> bool {
        spec_distinct_pawns(self.triggers)
    }

    /// Asking for a replay leaves each pawn with one trigger at most.
    pub proof fn lemma_replay_commands_distinct(self, tick: u16, pawn: u16)
        requires
            self.triggers_distinct(),
        ensures
            self.replay_commands(tick, pawn).triggers_distinct(),
    {
        lemma_trigger_index(self.triggers, pawn);
        let at = spec_trigger_index(self.triggers, pawn);
        let after = self.replay_commands(tick, pawn).triggers;
        assert forall|i: int, j: int|
            #![trigger after[i], after[j]]
            0 <= i < j < after.len() implies after[i].pawn != after[j].pawn by {
            if at < self.triggers.len() {
                assert(after[i].pawn == self.triggers[i].pawn);
                assert(after[j].pawn == self.triggers[j].pawn);
            } else if j < self.triggers.len() {
                assert(after[i] == self.triggers[i]);
                assert(after[j] == self.triggers[j]);
            } else {
                assert(after[i] == self.triggers[i]);
            }
        }
    }

    /// The state after a command has been queued: it waits to be run, and
    /// is kept in the history of its pawn if the pawn has one.
    pub open spec fn queue_command(self, tick: u16, pawn: u16, command: ReplicaView) -> Self {
        CommandReceiverView {
            incoming: self.incoming.push(CommandView { tick, pawn, command }),
            history: if self.history.contains_key(pawn) {
                self.history.insert(pawn, self.history[pawn].insert(tick, command))
            } else {
                self.history
            },
            ..self
        }
    }

    /// The state after a replay from `tick` has been asked for `pawn`: of
    /// all the ticks asked for one pawn the earliest is kept.
    pub open spec fn replay_commands(self, tick: u16, pawn: u16) -> Self {
        let i = spec_trigger_index(self.triggers, pawn);
        if i < self.triggers.len() {
            if spec_wrapping_diff(self.triggers[i].tick, tick) < 0 {
                CommandReceiverView {
                    triggers: self.triggers.update(i, ReplayTrigger { pawn, tick }),
                    ..self
                }
            } else {
                self
            }
        } else {
            CommandReceiverView {
                triggers: self.triggers.push(ReplayTrigger { pawn, tick }),
                ..self
            }
        }
    }

    /// The state after the history of `pawn` has been cut up to `tick`.
    pub open spec fn remove_history_until(self, tick: u16, pawn: u16) -> Self {
        if self.history.contains_key(pawn) {
            CommandReceiverView {
                history: self.history.insert(pawn, self.history[pawn].remove_until(tick)),
                ..self
            }
        } else {
            self
        }
    }

    /// The state after `pawn` has been given an empty history.
    pub open spec fn pawn_init(self, pawn: u16) -> Self {
        CommandReceiverView {
            history: self.history.insert(
                pawn,
                HistoryView { head: None, entries: Map::<u16, ReplicaView>::empty() },
            ),
            ..self
        }
    }

    /// The state after the history of `pawn` has been dropped.
    pub open spec fn pawn_cleanup(self, pawn: u16) -> Self {
        CommandReceiverView { history: self.history.remove(pawn), ..self }
    }

    /// The state after one trigger has been served: both queues are
    /// emptied, and the commands of the pawn from the trigger's tick on wait
    /// to be run again.
    pub open spec fn serve_trigger(self, trigger: ReplayTrigger) -> Self {
        CommandReceiverView {
            incoming: Seq::empty(),
            replays: if self.history.contains_key(trigger.pawn) {
                self.history[trigger.pawn].replay_from(trigger.pawn, trigger.tick)
            } else {
                Seq::empty()
            },
            ..self
        }
    }

    /// The state after the triggers `from..` have been served, in order.
    pub open spec fn serve_triggers(self, from: nat) -> Self
        decreases self.triggers.len() - from,
    {
        if from >= self.triggers.len() {
            self
        } else {
            self.serve_trigger(self.triggers[from as int]).serve_triggers(from + 1)
        }
    }

    /// The state after all triggers have been served and forgotten.
    pub open spec fn process_command_replay(self) -> Self {
        CommandReceiverView { triggers: Seq::empty(), ..self.serve_triggers(0) }
    }
}

/// The replicas after the pawns of the triggers `from..` have been set back.
pub open spec fn spec_reset_pawns(client: ClientView, triggers: Seq<ReplayTrigger>, from: nat) -> ClientView
    decreases triggers.len() - from,
{
    if from >= triggers.len() {
        client
    } else {
        spec_reset_pawns(client.pawn_reset_entity(triggers[from as int].pawn), triggers, from + 1)
    }
}

/// The view of the history that a buffer of commands holds.
pub open spec fn spec_history<P: ProtocolType>(buffer: SequenceBuffer<P>) -> HistoryView {
    HistoryView { head: buffer.newest(), entries: buffer@.map_values(|command: P| command@) }
}

/// The views of a queue of commands.
pub open spec fn spec_queue<P: ProtocolType>(queue: Seq<QueuedCommand<P>>) -> Seq<CommandView> {
    queue.map_values(
        |queued: QueuedCommand<P>|
            CommandView { tick: queued.tick, pawn: queued.pawn, command: queued.command@ },
    )
}

/// Handles the commands that the client predicts.
pub struct CommandReceiver<P: ProtocolType> {
    queued_incoming_commands: VecDeque<QueuedCommand<P>>,
    command_history: HashMap<u16, SequenceBuffer<P>>,
    queued_command_replays: VecDeque<QueuedCommand<P>>,
    replay_trigger: Vec<ReplayTrigger>,
}

impl<P: ProtocolType> CommandReceiver<P> {
    /// What this value is to the contracts.
    pub closed spec fn view(&self) -> CommandReceiverView {
        CommandReceiverView {
            incoming: spec_queue(self.queued_incoming_commands@),
            replays: spec_queue(self.queued_command_replays@),
            history: self.command_history@.map_values(
                |buffer: SequenceBuffer<P>| spec_history(buffer),
            ),
            triggers: self.replay_trigger@,
        }
    }

    /// Every history is a sound buffer of 64 slots, and no pawn has two
    /// triggers.
    pub closed spec fn wf(&self) -> bool {
        &&& forall|pawn: u16|
            (#[trigger] self.command_history@.contains_key(pawn))
                ==> self.command_history@[pawn].wf() && self.command_history@[pawn].capacity()
                == COMMAND_HISTORY_SIZE
        &&& spec_distinct_pawns(self.replay_trigger@)
    }

    /// A receiver in order holds one trigger for a pawn at most.
    pub proof fn lemma_triggers_distinct(&self)
        requires
            self.wf(),
        ensures
            self@.triggers_distinct(),
    {
    }

    /// A receiver without commands.
    pub fn new() -> (receiver: Self)
        ensures
            receiver.wf(),
            receiver@.incoming == Seq::<CommandView>::empty(),
            receiver@.replays == Seq::<CommandView>::empty(),
            receiver@.history == Map::<u16, HistoryView>::empty(),
            receiver@.triggers == Seq::<ReplayTrigger>::empty(),
    {
        let receiver = CommandReceiver {
            queued_incoming_commands: VecDeque::new(),
            command_history: HashMap::new(),
            queued_command_replays: VecDeque::new(),
            replay_trigger: Vec::new(),
        };
        assert(receiver@.incoming =~= Seq::<CommandView>::empty());
        assert(receiver@.replays =~= Seq::<CommandView>::empty());
        assert(receiver@.history =~= Map::<u16, HistoryView>::empty());
        receiver
    }

    /// Takes the next command to run: its tick, its pawn and the command.
    pub fn pop_command(&mut self) -> (r: Option<(u16, LocalEntityKey, P)>)
        ensures
            final(self).wf() == old(self).wf(),
            match r {
                Some((tick, pawn, command)) => old(self)@.incoming.len() > 0 && (CommandView {
                    tick,
                    pawn,
                    command: command@,
                }) == old(self)@.incoming[0] && final(self)@ == (CommandReceiverView {
                    incoming: old(self)@.incoming.skip(1),
                    ..old(self)@
                }),
                None => old(self)@.incoming.len() == 0 && final(self)@ == old(self)@,
            },
    {
        let r = self.queued_incoming_commands.pop_front();
        proof {
            if r is Some {
                assert(self@.incoming =~= old(self)@.incoming.skip(1));
            } else {
                assert(self@.incoming =~= old(self)@.incoming);
            }
        }
        match r {
            Some(queued) => Some((queued.tick, queued.pawn, queued.command)),
            None => None,
        }
    }

    /// Takes the next command to run again.
    pub fn pop_command_replay(&mut self) -> (r: Option<(u16, LocalEntityKey, P)>)
        ensures
            final(self).wf() == old(self).wf(),
            match r {
                Some((tick, pawn, command)) => old(self)@.replays.len() > 0 && (CommandView {
                    tick,
                    pawn,
                    command: command@,
                }) == old(self)@.replays[0] && final(self)@ == (CommandReceiverView {
                    replays: old(self)@.replays.skip(1),
                    ..old(self)@
                }),
                None => old(self)@.replays.len() == 0 && final(self)@ == old(self)@,
            },
    {
        let r = self.queued_command_replays.pop_front();
        proof {
            if r is Some {
                assert(self@.replays =~= old(self)@.replays.skip(1));
            } else {
                assert(self@.replays =~= old(self)@.replays);
            }
        }
        match r {
            Some(queued) => Some((queued.tick, queued.pawn, queued.command)),
            None => None,
        }
    }

    /// Serves the replays that were asked for, once per frame, before the
    /// host program takes its commands: each pawn named is set back to what
    /// the server says, both queues are emptied, and the commands of the pawn
    /// from the tick asked for on are queued to be run again.
    pub fn process_command_replay(&mut self, entity_manager: &mut ReplicaManager<P>)
        requires
            old(self).wf(),
        ensures
            final(self).wf(),
            final(self)@ == old(self)@.process_command_replay(),
            final(entity_manager)@ == spec_reset_pawns(
                old(entity_manager)@,
                old(self)@.triggers,
                0,
            ),
            old(entity_manager).wf() ==> final(entity_manager).wf(),
    {
        let mut i: usize = 0;
        while i < self.replay_trigger.len()
            invariant
                i <= self.replay_trigger@.len(),
                self.wf(),
                old(entity_manager).wf() ==> entity_manager.wf(),
                self@.triggers == old(self)@.triggers,
                old(self)@.serve_triggers(0) == self@.serve_triggers(i as nat),
                spec_reset_pawns(old(entity_manager)@, old(self)@.triggers, 0) == spec_reset_pawns(
                    entity_manager@,
                    old(self)@.triggers,
                    i as nat,
                ),
            decreases self.replay_trigger@.len() - i,
        {
            let trigger = self.replay_trigger[i];
            let ghost before = self@;
            entity_manager.pawn_reset_entity(&trigger.pawn);
            self.queued_incoming_commands.clear();
            self.queued_command_replays.clear();
            match self.command_history.get(&trigger.pawn) {
                Some(buffer) => {
                    replay_history(
                        buffer,
                        trigger.pawn,
                        trigger.tick,
                        &mut self.queued_command_replays,
                    );
                },
                None => {},
            }
            proof {
                let after = before.serve_trigger(trigger);
                assert(self@.incoming =~= after.incoming);
                assert(self@.replays =~= after.replays);
                assert(self@.history == after.history);
                assert(self@ == after);
            }
            i = i + 1;
        }
        self.replay_trigger.clear();
        proof {
            let served = old(self)@.serve_triggers(0);
            assert(self@.triggers =~= Seq::<ReplayTrigger>::empty());
        }
    }

    /// Queues a command to be run on the client, and keeps it in the history
    /// of its pawn.
    pub fn queue_command(&mut self, host_tick: u16, pawn_key: &LocalEntityKey, command: &P)
        requires
            old(self).wf(),
        ensures
            final(self).wf(),
            final(self)@ == old(self)@.queue_command(host_tick, *pawn_key, command@),
    {
        self.queued_incoming_commands.push_back(
            QueuedCommand { tick: host_tick, pawn: *pawn_key, command: command.copy() },
        );
        assert(self@.incoming =~= old(self)@.incoming.push(
            CommandView { tick: host_tick, pawn: *pawn_key, command: command@ },
        ));
        match self.command_history.remove(pawn_key) {
            Some(mut buffer) => {
                let ghost before = buffer;
                let stored = command.copy();
                buffer.insert(host_tick, stored);
                proof {
                    lemma_history_insert(before, buffer, host_tick, stored);
                }
                self.command_history.insert(*pawn_key, buffer);
                assert(self@.history =~= old(self)@.history.insert(
                    *pawn_key,
                    old(self)@.history[*pawn_key].insert(host_tick, command@),
                ));
            },
            None => {
                assert(self@.history =~= old(self)@.history);
            },
        }
    }

    /// How many commands the history of `pawn_key` holds; 0 if the pawn has
    /// none.
    pub fn command_history_count(&self, pawn_key: &LocalEntityKey) -> (count: u8)
        requires
            self.wf(),
        ensures
            count == (if self@.history.contains_key(*pawn_key) {
                spec_ticks_from(
                    self@.history[*pawn_key].entries,
                    spec_head_tick(self@.history[*pawn_key].head),
                    COMMAND_HISTORY_SIZE as nat,
                ).len()
            } else {
                0
            }),
    {
        match self.command_history.get(pawn_key) {
            Some(buffer) => {
                proof {
                    lemma_ticks_len(buffer@, buffer.head(), buffer.capacity());
                    lemma_history_ticks(*buffer, buffer.head(), buffer.capacity());
                }
                buffer.get_entries_count() as u8
            },
            None => 0,
        }
    }

    /// The commands that the history of `pawn_key` holds, each with its
    /// tick, oldest first, or newest first if `reverse`.
    pub fn command_history_iter(&self, pawn_key: &LocalEntityKey, reverse: bool) -> (r: Option<
        Vec<QueuedCommand<P>>,
    >)
        requires
            self.wf(),
        ensures
            match r {
                Some(commands) => self@.history.contains_key(*pawn_key) && spec_queue(commands@)
                    == self@.history[*pawn_key].commands_at(
                    *pawn_key,
                    self@.history[*pawn_key].ticks(reverse),
                ),
                None => !self@.history.contains_key(*pawn_key),
            },
    {
        match self.command_history.get(pawn_key) {
            Some(buffer) => {
                proof {
                    lemma_history_ticks(*buffer, buffer.head(), buffer.capacity());
                    lemma_ticks_held(buffer@, buffer.head(), buffer.capacity());
                }
                let ticks = buffer.ticks(reverse);
                let ghost history = spec_history(*buffer);
                let mut commands: Vec<QueuedCommand<P>> = Vec::new();
                let mut i: usize = 0;
                assert(spec_queue(commands@) =~= history.commands_at(*pawn_key, ticks@.take(0)));
                while i < ticks.len()
                    invariant
                        i <= ticks@.len(),
                        buffer.wf(),
                        history == spec_history(*buffer),
                        forall|k: int|
                            0 <= k < ticks@.len() ==> buffer@.contains_key(#[trigger] ticks@[k]),
                        spec_queue(commands@) == history.commands_at(
                            *pawn_key,
                            ticks@.take(i as int),
                        ),
                    decreases ticks@.len() - i,
                {
                    let tick = ticks[i];
                    let ghost before = spec_queue(commands@);
                    assert(buffer@.contains_key(ticks@[i as int]));
                    match buffer.get(tick) {
                        Some(command) => {
                            commands.push(
                                QueuedCommand { tick, pawn: *pawn_key, command: command.copy() },
                            );
                            assert(spec_queue(commands@) =~= before.push(
                                CommandView {
                                    tick,
                                    pawn: *pawn_key,
                                    command: history.entries[tick],
                                },
                            ));
                            assert(ticks@.take(i + 1) =~= ticks@.take(i as int).push(tick));
                            assert(spec_queue(commands@) =~= history.commands_at(
                                *pawn_key,
                                ticks@.take(i + 1),
                            ));
                        },
                        None => {},
                    }
                    i = i + 1;
                }
                assert(ticks@.take(i as int) =~= ticks@);
                Some(commands)
            },
            None => None,
        }
    }

    /// The command that the history of `pawn_key` holds under `tick`.
    pub fn command_history_get(&self, pawn_key: &LocalEntityKey, tick: u16) -> (r: Option<&P>)
        requires
            self.wf(),
        ensures
            match r {
                Some(command) => self@.history.contains_key(*pawn_key)
                    && self@.history[*pawn_key].entries.contains_key(tick) && command@
                    == self@.history[*pawn_key].entries[tick],
                None => !self@.history.contains_key(*pawn_key)
                    || !self@.history[*pawn_key].entries.contains_key(tick),
            },
    {
        match self.command_history.get(pawn_key) {
            Some(buffer) => buffer.get(tick),
            None => None,
        }
    }

    /// Asks for the commands of `pawn_key` to be run again from
    /// `history_tick` on.
    pub fn replay_commands(&mut self, history_tick: u16, pawn_key: &LocalEntityKey)
        ensures
            old(self).wf() ==> final(self).wf(),
            final(self)@ == old(self)@.replay_commands(history_tick, *pawn_key),
    {
        proof {
            if self.wf() {
                self@.lemma_replay_commands_distinct(history_tick, *pawn_key);
            }
        }
        let mut i: usize = 0;
        assert(self.replay_trigger@.skip(0) =~= self.replay_trigger@);
        while i < self.replay_trigger.len()
            invariant
                i <= self.replay_trigger@.len(),
                self.replay_trigger@ == old(self).replay_trigger@,
                *self == *old(self),
                spec_trigger_index(self.replay_trigger@, *pawn_key) == i + spec_trigger_index(
                    self.replay_trigger@.skip(i as int),
                    *pawn_key,
                ),
            decreases self.replay_trigger@.len() - i,
        {
            assert(self.replay_trigger@.skip(i as int)[0] == self.replay_trigger@[i as int]);
            assert(self.replay_trigger@.skip(i as int).skip(1) =~= self.replay_trigger@.skip(
                i + 1,
            ));
            if self.replay_trigger[i].pawn == *pawn_key {
                if wrapping_diff(self.replay_trigger[i].tick, history_tick) < 0 {
                    self.replay_trigger[i] = ReplayTrigger { pawn: *pawn_key, tick: history_tick };
                }
                assert(self.command_history@ == old(self).command_history@);
                return ;
            }
            i = i + 1;
        }
        self.replay_trigger.push(ReplayTrigger { pawn: *pawn_key, tick: history_tick });
        assert(self.command_history@ == old(self).command_history@);
    }

    /// Forgets the commands of `pawn_key` of `history_tick` and earlier.
    pub fn remove_history_until(&mut self, history_tick: u16, pawn_key: &LocalEntityKey)
        requires
            old(self).wf(),
        ensures
            final(self).wf(),
            final(self)@ == old(self)@.remove_history_until(history_tick, *pawn_key),
    {
        match self.command_history.remove(pawn_key) {
            Some(mut buffer) => {
                let ghost before = buffer;
                buffer.remove_until(history_tick);
                self.command_history.insert(*pawn_key, buffer);
                proof {
                    assert(spec_history(buffer).entries =~= spec_remove_until(
                        spec_history(before).entries,
                        history_tick,
                    ));
                    assert(self@.history =~= old(self)@.history.insert(
                        *pawn_key,
                        old(self)@.history[*pawn_key].remove_until(history_tick),
                    ));
                }
            },
            None => {
                assert(self@.history =~= old(self)@.history);
            },
        }
    }

    /// Gives a new pawn an empty history.
    pub fn pawn_init(&mut self, pawn_key: &LocalEntityKey)
        requires
            old(self).wf(),
        ensures
            final(self).wf(),
            final(self)@ == old(self)@.pawn_init(*pawn_key),
    {
        let buffer: SequenceBuffer<P> = SequenceBuffer::with_capacity(COMMAND_HISTORY_SIZE);
        assert(spec_history(buffer).entries =~= Map::<u16, ReplicaView>::empty());
        self.command_history.insert(*pawn_key, buffer);
        assert(self@.history =~= old(self)@.history.insert(
            *pawn_key,
            HistoryView { head: None, entries: Map::<u16, ReplicaView>::empty() },
        ));
    }

    /// Drops the history of a pawn that is no more.
    pub fn pawn_cleanup(&mut self, pawn_key: &LocalEntityKey)
        requires
            old(self).wf(),
        ensures
            final(self).wf(),
            final(self)@ == old(self)@.pawn_cleanup(*pawn_key),
    {
        self.command_history.remove(pawn_key);
        assert(self@.history =~= old(self)@.history.remove(*pawn_key));
    }
}

/// Queues copies of the commands that `buffer` holds from tick `from` up to
/// its head.
fn replay_history<P: ProtocolType>(
    buffer: &SequenceBuffer<P>,
    pawn: u16,
    from: u16,
    out: &mut VecDeque<QueuedCommand<P>>,
)
    requires
        buffer.wf(),
        old(out)@.len() == 0,
    ensures
        spec_queue(final(out)@) == spec_history(*buffer).replay_from(pawn, from),
{
    let ghost history = spec_history(*buffer);
    let head = match buffer.newest_num() {
        Some(head) => head,
        None => {
            assert(spec_queue(out@) =~= Seq::<CommandView>::empty());
            return ;
        },
    };
    let distance: i16 = wrapping_diff(from, head);
    if distance < 0 {
        assert(spec_queue(out@) =~= Seq::<CommandView>::empty());
        return ;
    }
    let count: u32 = distance as u32 + 1;
    let mut done: u32 = 0;
    let mut tick: u16 = from;
    assert(spec_queue(out@) =~= Seq::<CommandView>::empty());
    while done < count
        invariant
            done <= count,
            count <= 32768,
            buffer.wf(),
            history == spec_history(*buffer),
            spec_queue(out@) + history.replay(pawn, tick, (count - done) as nat) == history.replay(
                pawn,
                from,
                count as nat,
            ),
        decreases count - done,
    {
        let ghost queued = spec_queue(out@);
        let ghost rest = history.replay(
            pawn,
            ((tick as int + 1) % 65536) as u16,
            (count - done - 1) as nat,
        );
        match buffer.get(tick) {
            Some(command) => {
                out.push_back(QueuedCommand { tick, pawn, command: command.copy() });
                proof {
                    let view = CommandView { tick, pawn, command: history.entries[tick] };
                    assert(spec_queue(out@) =~= queued.push(view));
                    assert(queued.push(view) + rest =~= queued + (seq![view] + rest));
                }
            },
            None => {},
        }
        tick = tick.wrapping_add(1);
        done = done + 1;
    }
    assert(spec_queue(out@) + Seq::<CommandView>::empty() =~= spec_queue(out@));
}

/// Storing a command in a buffer stores its view in the buffer's history.
proof fn lemma_history_insert<P: ProtocolType>(
    before: SequenceBuffer<P>,
    after: SequenceBuffer<P>,
    tick: u16,
    command: P,
)
    requires
        before.capacity() == COMMAND_HISTORY_SIZE,
        after.capacity() == COMMAND_HISTORY_SIZE,
        spec_accepts(before.newest(), COMMAND_HISTORY_SIZE as nat, tick) ==> after.newest()
            == Some(spec_advance(before.newest(), tick)) && after@ == spec_insert(
            before@,
            before.newest(),
            before.capacity(),
            tick,
            command,
        ),
        !spec_accepts(before.newest(), COMMAND_HISTORY_SIZE as nat, tick) ==> after.newest()
            == before.newest() && after@ == before@,
    ensures
        spec_history(after) == spec_history(before).insert(tick, command@),
{
    assert(spec_history(after).entries =~= spec_history(before).insert(tick, command@).entries);
}

/// The ticks of a buffer are the ticks of its history.
proof fn lemma_history_ticks<P: ProtocolType>(buffer: SequenceBuffer<P>, head: u16, back: nat)
    ensures
        spec_ticks_from(buffer@, head, back) == spec_ticks_from(
            spec_history(buffer).entries,
            head,
            back,
        ),
    decreases back,
{
    if back > 0 {
        lemma_history_ticks(buffer, head, (back - 1) as nat);
    }
}

} // verus!
