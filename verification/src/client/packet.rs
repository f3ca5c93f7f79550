//! A data packet of the server, as the client takes it in.

use vstd::prelude::*;
use crate::client::client_state::{ClientState, Processed, spec_process_data};
use crate::client::command_receiver::CommandReceiver;
use crate::client::replica_manager::ReplicaManager;
use crate::error::ProtocolError;
use crate::manager_type::{ManagerType, spec_manager_type};
use crate::manifest::{Manifest, ReplicaBuilder};
use crate::packet_reader::{PacketReader, spec_read_u16};
use crate::protocol_type::{ProtocolKindType, ProtocolType};

verus! {

/// The state after one section of a data packet has been taken in: the code
/// of its manager, the tick of the server, and the records of the entity
/// manager. The number of bytes in the result is that of the whole section.
pub open spec fn spec_process_section<K: ProtocolKindType>(
    state: ClientState,
    registered: Set<u16>,
    input: Seq<u8>,
) -> Processed {
    if input.len() < 1 {
        Processed { state, result: Err(ProtocolError::Truncated) }
    } else {
        match spec_read_u16(input.skip(1)) {
            Err(e) => Processed { state, result: Err(e) },
            Ok(tick) => match spec_manager_type(input[0]) {
                ManagerType::Entity => {
                    let processed = spec_process_data::<K>(state, registered, tick, input.skip(3));
                    Processed {
                        state: processed.state,
                        result: match processed.result {
                            Ok(used) => Ok(used + 3),
                            Err(e) => Err(e),
                        },
                    }
                },
                _ => Processed { state, result: Err(ProtocolError::UnknownManager) },
            },
        }
    }
}

/// The state after the sections of a data packet have been taken in, one
/// after another until the packet ends or a section is at fault.
pub open spec fn spec_process_packet<K: ProtocolKindType>(
    state: ClientState,
    registered: Set<u16>,
    input: Seq<u8>,
    used: nat,
) -> Processed
    decreases input.len(),
{
    if input.len() == 0 {
        Processed { state, result: Ok(used) }
    } else {
        let processed = spec_process_section::<K>(state, registered, input);
        match processed.result {
            Err(e) => processed,
            Ok(n) => if n == 0 || n > input.len() {
                Processed { state: processed.state, result: Err(ProtocolError::Truncated) }
            } else {
                spec_process_packet::<K>(
                    processed.state,
                    registered,
                    input.skip(n as int),
                    used + n,
                )
            },
        }
    }
}

/// Takes in one section of a data packet: a section of the entity manager
/// is applied, one of another manager is a fault.
pub fn process_section<P: ProtocolType, B: ReplicaBuilder<P>>(
    manager: &mut ReplicaManager<P>,
    command_receiver: &mut CommandReceiver<P>,
    manifest: &Manifest<P, B>,
    packet_index: u16,
    reader: &mut PacketReader,
) -> (r: Result<(), ProtocolError>)
    requires
        manifest.wf(),
        old(command_receiver).wf(),
        old(reader).wf(),
    ensures
        final(command_receiver).wf(),
        final(reader).wf(),
        old(manager).wf() ==> final(manager).wf(),
        ({
            let out = spec_process_section::<P::Kind>(
                ClientState { client: old(manager)@, commands: old(command_receiver)@ },
                manifest@,
                old(reader).remaining(),
            );
            &&& out.state == (ClientState {
                client: final(manager)@,
                commands: final(command_receiver)@,
            })
            &&& match r {
                Ok(_) => out.result matches Ok(used) && 3 <= used <= old(reader).remaining().len()
                    && final(reader).remaining() == old(reader).remaining().skip(used as int),
                Err(e) => out.result == Err::<nat, ProtocolError>(e),
            }
        }),
{
    let ghost input = reader.remaining();
    let code = reader.read_u8()?;
    let tick = reader.read_u16()?;
    let ghost body = reader.remaining();
    assert(body =~= input.skip(3));
    match ManagerType::from(code) {
        ManagerType::Entity => {
            let outcome = manager.process_data(
                manifest,
                command_receiver,
                tick,
                packet_index,
                reader,
            );
            proof {
                if outcome is Ok {
                    let out = spec_process_data::<P::Kind>(
                        ClientState { client: old(manager)@, commands: old(command_receiver)@ },
                        manifest@,
                        tick,
                        body,
                    );
                    let used = out.result->Ok_0;
                    reader.lemma_remaining();
                    crate::client::client_state::lemma_process_data_bounds::<P::Kind>(
                        ClientState { client: old(manager)@, commands: old(command_receiver)@ },
                        manifest@,
                        tick,
                        body,
                    );
                    assert(body.skip(used as int) =~= input.skip(used as int + 3));
                }
            }
            outcome
        },
        _ => Err(ProtocolError::UnknownManager),
    }
}

/// Takes in a data packet of the server that holds entity sections only,
/// with the payload `payload`: its sections, one after another. A section
/// of another manager than the entity manager is a fault; a client that is
/// sent messages too takes its packets in through its session. At the first
/// fault the rest of the packet is given up and the fault is returned; what
/// was applied before stays applied.
pub fn process_packet<P: ProtocolType, B: ReplicaBuilder<P>>(
    manager: &mut ReplicaManager<P>,
    command_receiver: &mut CommandReceiver<P>,
    manifest: &Manifest<P, B>,
    packet_index: u16,
    payload: &[u8],
) -> (r: Result<(), ProtocolError>)
    requires
        manifest.wf(),
        old(command_receiver).wf(),
    ensures
        final(command_receiver).wf(),
        old(manager).wf() ==> final(manager).wf(),
        ({
            let out = spec_process_packet::<P::Kind>(
                ClientState { client: old(manager)@, commands: old(command_receiver)@ },
                manifest@,
                payload@,
                0,
            );
            &&& out.state == (ClientState {
                client: final(manager)@,
                commands: final(command_receiver)@,
            })
            &&& match r {
                Ok(_) => out.result is Ok,
                Err(e) => out.result == Err::<nat, ProtocolError>(e),
            }
        }),
{
    let mut reader = PacketReader::new(payload);
    let ghost start = ClientState { client: manager@, commands: command_receiver@ };
    let ghost mut used: nat = 0;
    while reader.has_more()
        invariant
            manifest.wf(),
            command_receiver.wf(),
            reader.wf(),
            old(manager).wf() ==> manager.wf(),
            start == (ClientState { client: old(manager)@, commands: old(command_receiver)@ }),
            spec_process_packet::<P::Kind>(
                ClientState { client: manager@, commands: command_receiver@ },
                manifest@,
                reader.remaining(),
                used,
            ) == spec_process_packet::<P::Kind>(start, manifest@, payload@, 0),
        decreases reader.remaining().len(),
    {
        let ghost before = reader.remaining();
        let ghost now = ClientState { client: manager@, commands: command_receiver@ };
        match process_section(manager, command_receiver, manifest, packet_index, &mut reader) {
            Ok(_) => {
                proof {
                    let out = spec_process_section::<P::Kind>(now, manifest@, before);
                    used = used + out.result->Ok_0;
                }
            },
            Err(e) => {
                proof {
                    let out = spec_process_packet::<P::Kind>(now, manifest@, before, used);
                    assert(out.result == Err::<nat, ProtocolError>(e));
                }
                return Err(e);
            },
        }
    }
    Ok(())
}

} // verus!
