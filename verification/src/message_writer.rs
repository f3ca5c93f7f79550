//! The sections that carry messages: the commands that a client sends for
//! its pawns, with the proof that the server reads back what was written,
//! and the messages that either side sends the other.

use vstd::prelude::*;
use crate::client::command_receiver::QueuedCommand;
use crate::error::ProtocolError;
use crate::manager_type::ManagerType;
use crate::packet_reader::{
    Parsed, lemma_u16_round_trip, spec_u16_bytes, write_bytes, write_u16, write_u8,
};
use crate::protocol_type::{ProtocolKindType, ProtocolType};
use crate::server::entity_message_receiver::{EntityMessageView, spec_read_message};
use crate::client::replica_action::spec_views;
use crate::wire::{ReplicaView, lemma_full_round_trip, spec_well_formed, spec_write};

verus! {

/// The bytes of a message for an entity: the key of the entity, the number
/// of the message's kind, its full body.
pub open spec fn spec_encode_message(message: EntityMessageView) -> Seq<u8> {
    spec_u16_bytes(message.entity) + spec_u16_bytes(message.message.kind) + spec_write(
        message.message.props,
    )
}

/// The message that a queued command is on the wire.
pub open spec fn spec_command_message<P: ProtocolType>(command: QueuedCommand<P>)
    -> EntityMessageView {
    EntityMessageView { entity: command.pawn, message: command.command@ }
}

/// The bytes of the commands `commands[from..]`, one after another.
pub open spec fn spec_encode_commands<P: ProtocolType>(commands: Seq<QueuedCommand<P>>, from: nat)
    -> Seq<u8>
    decreases commands.len() - from,
{
    if from >= commands.len() {
        Seq::empty()
    } else {
        spec_encode_message(spec_command_message(commands[from as int])) + spec_encode_commands(
            commands,
            from + 1,
        )
    }
}

/// The section of commands of a client at `tick`: the code of the command
/// manager, the tick, the number of commands, and the commands.
pub open spec fn spec_command_section<P: ProtocolType>(tick: u16, commands: Seq<QueuedCommand<P>>)
    -> Seq<u8> {
    seq![crate::manager_type::spec_manager_code(ManagerType::Command)] + spec_u16_bytes(tick)
        + seq![commands.len() as u8] + spec_encode_commands(commands, 0)
}

/// Appends a message for an entity.
pub fn write_message<P: ProtocolType>(out: &mut Vec<u8>, entity: u16, message: &P)
    ensures
        final(out)@ == old(out)@ + spec_encode_message(
            EntityMessageView { entity, message: message@ },
        ),
{
    write_u16(out, entity);
    write_u16(out, message.kind().to_u16());
    message.write(out);
    assert(out@ =~= old(out)@ + spec_encode_message(
        EntityMessageView { entity, message: message@ },
    ));
}

/// Appends the section of the commands that a client at `client_tick`
/// issues. No section takes more than 255 commands: with more, nothing is
/// written and `false` is returned.
pub fn write_command_section<P: ProtocolType>(
    out: &mut Vec<u8>,
    client_tick: u16,
    commands: &Vec<QueuedCommand<P>>,
) -> (written: bool)
    ensures
        written == (commands@.len() <= 255),
        final(out)@ == (if written {
            old(out)@ + spec_command_section(client_tick, commands@)
        } else {
            old(out)@
        }),
{
    if commands.len() > 255 {
        return false;
    }
    write_u8(out, ManagerType::Command.to_u8());
    write_u16(out, client_tick);
    write_u8(out, commands.len() as u8);
    let mut body: Vec<u8> = Vec::new();
    let mut j: usize = 0;
    assert(spec_encode_commands(commands@, 0) == body@ + spec_encode_commands(commands@, 0));
    while j < commands.len()
        invariant
            j <= commands@.len(),
            body@ + spec_encode_commands(commands@, j as nat) == spec_encode_commands(
                commands@,
                0,
            ),
        decreases commands@.len() - j,
    {
        let ghost before = body@;
        let ghost part = spec_encode_message(spec_command_message(commands@[j as int]));
        let ghost rest = spec_encode_commands(commands@, (j + 1) as nat);
        write_message(&mut body, commands[j].pawn, &commands[j].command);
        assert((before + part) + rest =~= before + (part + rest));
        j = j + 1;
    }
    write_bytes(out, &body);
    proof {
        assert(body@ + Seq::<u8>::empty() =~= body@);
        assert(out@ =~= old(out)@ + spec_command_section(client_tick, commands@));
    }
    true
}

/// A message is read back as it was written, whatever follows it.
pub proof fn lemma_message_round_trip<K: ProtocolKindType>(
    registered: Set<u16>,
    message: EntityMessageView,
    rest: Seq<u8>,
)
    requires
        spec_well_formed::<K>(message.message),
        registered.contains(message.message.kind),
    ensures
        spec_read_message::<K>(registered, spec_encode_message(message) + rest) == Ok::<
            Parsed<EntityMessageView>,
            ProtocolError,
        >(Parsed { value: message, consumed: spec_encode_message(message).len() }),
        (spec_encode_message(message) + rest).skip(spec_encode_message(message).len() as int)
            == rest,
{
    let body = spec_write(message.message.props);
    let input = spec_encode_message(message) + rest;
    assert(input =~= spec_u16_bytes(message.entity) + (spec_u16_bytes(message.message.kind) + (
    body + rest)));
    lemma_u16_round_trip(message.entity, spec_u16_bytes(message.message.kind) + (body + rest));
    lemma_u16_round_trip(message.message.kind, body + rest);
    assert(input.skip(2) =~= spec_u16_bytes(message.message.kind) + (body + rest));
    assert(input.skip(4) =~= body + rest);
    lemma_full_round_trip::<K>(message.message, rest);
    assert(input.skip(spec_encode_message(message).len() as int) =~= rest);
}

/// The bytes of a message: the number of its kind, its full body.
pub open spec fn spec_encode_plain(message: ReplicaView) -> Seq<u8> {
    spec_u16_bytes(message.kind) + spec_write(message.props)
}

/// The bytes of the messages `messages[from..]`, one after another.
pub open spec fn spec_encode_plains(messages: Seq<ReplicaView>, from: nat) -> Seq<u8>
    decreases messages.len() - from,
{
    if from >= messages.len() {
        Seq::empty()
    } else {
        spec_encode_plain(messages[from as int]) + spec_encode_plains(messages, from + 1)
    }
}

/// A section of messages at `tick`: the code of the message manager, the
/// tick, the number of messages, and the messages.
pub open spec fn spec_message_section(tick: u16, messages: Seq<ReplicaView>) -> Seq<u8> {
    seq![crate::manager_type::spec_manager_code(ManagerType::Message)] + spec_u16_bytes(tick)
        + seq![messages.len() as u8] + spec_encode_plains(messages, 0)
}

/// Appends a section of messages at `tick`. No section takes more than 255
/// messages: with more, nothing is written and `false` is returned.
pub fn write_message_section<P: ProtocolType>(out: &mut Vec<u8>, tick: u16, messages: &Vec<P>) -> (written:
    bool)
    ensures
        written == (messages@.len() <= 255),
        final(out)@ == (if written {
            old(out)@ + spec_message_section(tick, spec_views(messages@))
        } else {
            old(out)@
        }),
{
    if messages.len() > 255 {
        return false;
    }
    let ghost views = spec_views(messages@);
    write_u8(out, ManagerType::Message.to_u8());
    write_u16(out, tick);
    write_u8(out, messages.len() as u8);
    let mut body: Vec<u8> = Vec::new();
    let mut j: usize = 0;
    assert(spec_encode_plains(views, 0) == body@ + spec_encode_plains(views, 0));
    while j < messages.len()
        invariant
            j <= messages@.len(),
            views == spec_views(messages@),
            body@ + spec_encode_plains(views, j as nat) == spec_encode_plains(views, 0),
        decreases messages@.len() - j,
    {
        let ghost before = body@;
        let ghost part = spec_encode_plain(views[j as int]);
        let ghost rest = spec_encode_plains(views, (j + 1) as nat);
        assert(views[j as int] == messages@[j as int]@);
        write_u16(&mut body, messages[j].kind().to_u16());
        messages[j].write(&mut body);
        assert(body@ =~= before + part);
        assert((before + part) + rest =~= before + (part + rest));
        j = j + 1;
    }
    write_bytes(out, &body);
    proof {
        assert(body@ + Seq::<u8>::empty() =~= body@);
        assert(out@ =~= old(out)@ + spec_message_section(tick, views));
    }
    true
}

} // verus!
