use naia::client::command_receiver::{CommandReceiver, QueuedCommand};
use naia::diff_mask::DiffMask;
use naia::replicate::Replicate;
use naia::server::replication::Replication;
use naia::server::replication_view::{PawnPhase, ScopePhase, ScopedComponent};
use naia::client::packet::process_packet;
use naia::client::replica_manager::ReplicaManager;
use naia::error::ProtocolError;
use naia::manifest::{KindBuilder, Manifest, ReplicaBuilder};
use naia::message_writer::{write_command_section, write_message};
use naia::packet_reader::PacketReader;
use naia::protocol::{KeyCommand, Position, Protocol, ProtocolKind};
use naia::protocol_type::{
    ProtocolExtract, ProtocolInserter, ProtocolType, ReplicaCollector,
};
use naia::server::connection_table::ConnectionConfig;
use naia::server::host::Server;
use naia::server::keys::{ComponentKey, GlobalPawnKey};
use naia::server::server_event::ServerEvent;
use naia::server::server_view::ScopeEvent;
use naia::server::user::{Address, UserMut, UserRef};
use naia::shared_config::{LinkConditionerConfig, SharedConfig, DEFAULT_TICK_INTERVAL};

fn manifest() -> Manifest<Protocol> {
    let mut manifest = Manifest::new();
    manifest.register_replica(KindBuilder::new(ProtocolKind::Position));
    manifest.register_replica(KindBuilder::new(ProtocolKind::KeyCommand));
    manifest
}

fn address(port: u16) -> Address {
    Address { ip: 0x7f00_0001, port }
}

fn server() -> Server<Protocol> {
    Server::new(ConnectionConfig::new(1000, 3000, false).unwrap(), manifest())
}

fn position(x: i16, y: i16) -> Protocol {
    Protocol::Position(Position::new(x, y))
}

#[test]
fn the_tick_interval_is_16_milliseconds_unless_another_is_given() {
    let config: SharedConfig<Protocol> = SharedConfig::new(manifest(), None, None);
    assert_eq!(config.tick_interval, 16);
    assert_eq!(DEFAULT_TICK_INTERVAL, 16);
    assert!(config.link_condition_config.is_none());
    let link = LinkConditionerConfig::new(300, 84, 40);
    let config: SharedConfig<Protocol> = SharedConfig::new(manifest(), Some(50), Some(link));
    assert_eq!(config.tick_interval, 50);
    assert_eq!(config.link_condition_config, Some(link));
    assert!(config.manifest.has_kind(0));
}

#[test]
fn a_packet_of_the_server_is_taken_in_section_by_section() {
    let manifest = manifest();
    let mut manager: ReplicaManager<Protocol> = ReplicaManager::new();
    let mut commands: CommandReceiver<Protocol> = CommandReceiver::new();
    // two entity sections: create entity 1, then create entity 2 with a component
    let payload = vec![
        2u8, 0, 5, 1, 1, 0, 1, 0, //
        2, 0, 6, 1, 1, 0, 2, 1, 0, 0, 0, 9, 0, 3, 0, 4,
    ];
    assert_eq!(process_packet(&mut manager, &mut commands, &manifest, 0, &payload), Ok(()));
    assert!(manager.has_entity(&1));
    assert!(manager.has_entity(&2));
    assert!(manager.get_component(&9).unwrap().equals(&position(3, 4)));
    assert_eq!(process_packet(&mut manager, &mut commands, &manifest, 1, &[]), Ok(()));
}

#[test]
fn a_section_of_another_manager_is_a_fault_for_the_client() {
    let manifest = manifest();
    let mut manager: ReplicaManager<Protocol> = ReplicaManager::new();
    let mut commands: CommandReceiver<Protocol> = CommandReceiver::new();
    let payload = vec![2u8, 0, 5, 1, 1, 0, 1, 0, 3, 0, 5, 0];
    assert_eq!(
        process_packet(&mut manager, &mut commands, &manifest, 0, &payload),
        Err(ProtocolError::UnknownManager)
    );
    // the section before the fault stays applied
    assert!(manager.has_entity(&1));
    assert_eq!(
        process_packet(&mut manager, &mut commands, &manifest, 0, &[2, 0]),
        Err(ProtocolError::Truncated)
    );
}

#[test]
fn a_message_is_written_as_entity_kind_and_body() {
    let mut out = Vec::new();
    write_message(&mut out, 258, &position(1, 2));
    assert_eq!(out, vec![1, 2, 0, 0, 0, 1, 0, 2]);
}

#[test]
fn a_section_of_commands_is_read_back_by_the_server() {
    let mut server = server();
    let room = server.make_room().unwrap();
    let entity = server.spawn_entity().unwrap();
    server.room_add_entity(room, entity);
    server.receive_handshake(address(1), 100, 0);
    server.room_add_user(room, 0);
    let events = server.update_entity_scopes();
    assert_eq!(events, vec![ScopeEvent::InScope(0, entity)]);
    server.assign_pawn_entity(0, entity);
    while server.pop_event().is_some() {}

    let command = Protocol::KeyCommand(KeyCommand::new(false, true, false, true));
    let queued = vec![QueuedCommand { tick: 1, pawn: 0, command: command.copy() }];
    let mut section = Vec::new();
    assert!(write_command_section(&mut section, 1, &queued));
    assert_eq!(section, vec![3, 0, 1, 1, 0, 0, 0, 1, 0, 1, 0, 1]);
    assert_eq!(server.receive_data(&address(1), 5, &section), Ok(()));
    server.advance_tick();
    match server.pop_event() {
        Some(ServerEvent::Command(user, target, received)) => {
            assert_eq!((user, target), (0, entity));
            assert!(received.equals(&command));
        }
        _ => panic!("the command was not handed out"),
    }
}

#[test]
fn a_section_takes_at_most_255_commands() {
    let mut commands = Vec::new();
    for tick in 0..256u16 {
        commands.push(QueuedCommand { tick, pawn: 0, command: position(0, 0) });
    }
    let mut out = vec![7u8];
    assert!(!write_command_section(&mut out, 0, &commands));
    assert_eq!(out, vec![7]);
    commands.pop();
    assert!(write_command_section(&mut out, 0, &commands));
    assert_eq!(out.len(), 1 + 4 + 255 * 8);
    assert_eq!(out[4], 255);
}

#[test]
fn the_scope_update_tells_of_every_change_once() {
    let mut server = server();
    let room = server.make_room().unwrap();
    let first = server.spawn_entity().unwrap();
    let second = server.spawn_entity().unwrap();
    server.room_add_entity(room, first);
    server.room_add_entity(room, second);
    server.receive_handshake(address(1), 100, 0);
    server.receive_handshake(address(2), 200, 0);
    server.room_add_user(room, 1);
    assert_eq!(
        server.update_entity_scopes(),
        vec![ScopeEvent::InScope(1, first), ScopeEvent::InScope(1, second)]
    );
    assert!(server.update_entity_scopes().is_empty());
    server.room_add_user(room, 0);
    server.reject_scope(room, 1, first);
    assert_eq!(
        server.update_entity_scopes(),
        vec![
            ScopeEvent::InScope(0, first),
            ScopeEvent::InScope(0, second),
            ScopeEvent::OutOfScope(1, first)
        ]
    );
    assert!(server.update_entity_scopes().is_empty());
}

#[test]
fn a_user_that_waits_to_be_authorized_has_no_scope() {
    let mut server: Server<Protocol> =
        Server::new(ConnectionConfig::new(1000, 3000, true).unwrap(), manifest());
    let room = server.make_room().unwrap();
    let entity = server.spawn_entity().unwrap();
    server.room_add_entity(room, entity);
    server.receive_handshake(address(1), 100, 0);
    server.room_add_user(room, 0);
    assert!(server.update_entity_scopes().is_empty());
    assert!(server.send_all_updates(1, 1200).is_empty());
    server.accept_connection(0);
    assert_eq!(server.update_entity_scopes(), vec![ScopeEvent::InScope(0, entity)]);
}

#[test]
fn a_component_is_found_by_its_entity_and_its_kind() {
    let mut server = server();
    let entity = server.spawn_entity().unwrap();
    let component = server.insert_component(entity, position(1, 2)).unwrap();
    let key = ComponentKey::new(&entity, &0);
    assert_eq!(key, ComponentKey { entity, kind: 0 });
    assert_eq!(server.replica_key(&key), Some(component));
    assert_eq!(server.replica_key(&ComponentKey::new(&entity, &1)), None);
    assert_eq!(server.replica_key(&ComponentKey::new(&99, &0)), None);
    assert!(GlobalPawnKey::Entity(entity) != GlobalPawnKey::Object(component));
}

#[test]
fn the_server_knows_its_clients_and_the_numbers_of_their_packets() {
    let mut server = server();
    let room = server.make_room().unwrap();
    let entity = server.spawn_entity().unwrap();
    server.room_add_entity(room, entity);
    server.receive_handshake(address(1), 100, 0);
    server.receive_handshake(address(2), 200, 0);
    assert_eq!(server.get_clients(), vec![address(1), address(2)]);
    assert_eq!(server.get_users_count(), 2);
    assert_eq!(server.get_sequence_number(&address(1)), Some(0));
    assert_eq!(server.get_sequence_number(&address(3)), None);
    server.room_add_user(room, 1);
    server.update_entity_scopes();
    assert_eq!(server.send_all_updates(1, 1200).len(), 1);
    assert_eq!(server.get_sequence_number(&address(1)), Some(0));
    assert_eq!(server.get_sequence_number(&address(2)), Some(1));
}

#[test]
fn a_user_can_be_looked_at_and_acted_on() {
    let mut server = server();
    let room = server.make_room().unwrap();
    let entity = server.spawn_entity().unwrap();
    server.room_add_entity(room, entity);
    server.receive_handshake(address(1), 100, 0);
    {
        let user = UserRef::new(&server, &0);
        assert_eq!(user.key(), 0);
        assert_eq!(user.address(), address(1));
    }
    {
        let mut user = UserMut::new(&mut server, &0);
        assert_eq!(user.key(), 0);
        assert_eq!(user.address(), address(1));
        user.enter_room(&room);
    }
    assert_eq!(server.scopes().len(), 1);
    {
        let mut user = UserMut::new(&mut server, &0);
        user.leave_room(&room);
    }
    assert!(server.scopes().is_empty());
    {
        let mut user = UserMut::new(&mut server, &0);
        assert_eq!(user.enter_room(&room).leave_room(&room).enter_room(&room).key(), 0);
    }
    assert_eq!(server.scopes().len(), 1);
    {
        let mut user = UserMut::new(&mut server, &0);
        user.leave_room(&room).leave_room(&room);
    }
    assert!(server.scopes().is_empty());
    {
        let mut user = UserMut::new(&mut server, &0);
        user.disconnect();
    }
    assert_eq!(server.get_users_count(), 0);
}

#[test]
fn a_replica_is_handed_out_as_the_type_it_has() {
    let mut collector: ReplicaCollector<Protocol> = ReplicaCollector::new();
    position(3, 4).extract_and_insert(&7u16, &mut collector);
    Protocol::KeyCommand(KeyCommand::new(true, false, false, false))
        .extract_and_insert(&7u16, &mut collector);
    <ReplicaCollector<Protocol> as ProtocolInserter<Protocol, u16>>::insert(
        &mut collector,
        &8u16,
        Position::new(5, 6),
    );
    let replicas = collector.into_replicas();
    assert_eq!(replicas.len(), 3);
    assert!(replicas[0].equals(&position(3, 4)));
    assert!(replicas[1].equals(&Protocol::KeyCommand(KeyCommand::new(true, false, false, false))));
    assert!(replicas[2].equals(&position(5, 6)));
}

#[test]
fn a_replica_is_taken_out_of_the_protocol_or_changed_in_place() {
    let mut value = position(3, 4);
    {
        let inside: &mut Position =
            <Position as Replicate<Protocol>>::cast_mut(&mut value).unwrap();
        inside.x.set(30);
    }
    assert!(value.equals(&position(30, 4)));
    assert!(<KeyCommand as Replicate<Protocol>>::cast_mut(&mut value).is_none());
    let taken: Position = <Position as Replicate<Protocol>>::cast(value).unwrap();
    assert_eq!(*taken.x.get(), 30);
    assert!(<KeyCommand as Replicate<Protocol>>::cast(position(1, 1)).is_none());
}

#[test]
fn a_connection_remembers_what_is_in_scope_and_what_is_owed() {
    let mut replication = Replication::new();
    assert!(!replication.has_entity(5));
    assert!(replication.get_entity(5).is_none());
    let components = vec![ScopedComponent { component: 50, mask_bytes: 1 }];
    assert!(replication.scope_in(5, &components));
    assert!(!replication.scope_in(5, &components));
    let entry = replication.get_entity(5).unwrap();
    assert_eq!(entry.local, 0);
    assert_eq!(entry.phase, ScopePhase::Entering);
    assert_eq!(entry.pawn, PawnPhase::Free);
    assert!(replication.has_component(50));
    assert!(replication.get_mask(50).unwrap().is_clear());
    assert!(replication.get_mask(51).is_none());

    let mut diff = DiffMask::new(1);
    diff.set_bit(1);
    replication.mutate(50, &diff);
    replication.mutate(51, &diff);
    assert!(replication.get_mask(50).unwrap().get_bit(1));
    assert!(!replication.get_mask(50).unwrap().get_bit(0));

    assert!(replication.add_component(5, ScopedComponent { component: 51, mask_bytes: 1 }));
    assert!(!replication.add_component(5, ScopedComponent { component: 51, mask_bytes: 1 }));
    assert!(!replication.add_component(6, ScopedComponent { component: 60, mask_bytes: 1 }));
    replication.remove_component(51);
    assert!(!replication.has_component(51));

    replication.assign_pawn(5);
    assert_eq!(replication.get_entity(5).unwrap().pawn, PawnPhase::Assigning);
    assert_eq!(replication.command_target(0), Some(5));
    assert_eq!(replication.command_target(1), None);
    replication.unassign_pawn(5);
    assert_eq!(replication.get_entity(5).unwrap().pawn, PawnPhase::Releasing);
    assert_eq!(replication.command_target(0), None);

    // when the entity leaves scope nothing is owed for its components any more
    replication.scope_out(5);
    assert!(!replication.has_entity(5));
    assert!(!replication.has_component(50));
}

struct Positions;

impl ReplicaBuilder<Protocol> for Positions {
    fn spec_kind(&self) -> u16 {
        0
    }

    fn get_kind(&self) -> ProtocolKind {
        ProtocolKind::Position
    }

    fn build(&self, reader: &mut PacketReader, packet_index: u16) -> Result<Protocol, ProtocolError> {
        Protocol::read_full(0, reader, packet_index)
    }
}

#[test]
fn a_manifest_takes_the_builder_of_the_host_program() {
    let mut manifest = Manifest::new();
    manifest.register_replica(Positions);
    assert!(manifest.has_kind(0));
    assert!(!manifest.has_kind(1));
    let bytes = [0u8, 3, 255, 254];
    let mut reader = PacketReader::new(&bytes);
    let replica = manifest.create_replica(0, &mut reader, 0).unwrap();
    assert!(replica.equals(&Protocol::Position(Position::new(3, -2))));
    assert!(!reader.has_more());
    let mut reader = PacketReader::new(&bytes);
    assert!(matches!(manifest.create_replica(1, &mut reader, 0), Err(ProtocolError::UnknownKind)));
    assert_eq!(reader.remaining_len(), 4);

    // the client reads with it as with the builders of the library
    let mut manager: ReplicaManager<Protocol> = ReplicaManager::new();
    let mut commands: CommandReceiver<Protocol> = CommandReceiver::new();
    // one record: create entity 7 with component 70, a position at (3, -2)
    let section = [1u8, 1, 0, 7, 1, 0, 0, 0, 70, 0, 3, 255, 254];
    let mut reader = PacketReader::new(&section);
    assert_eq!(manager.process_data(&manifest, &mut commands, 0, 0, &mut reader), Ok(()));
    assert!(manager.get_component(&70).unwrap().equals(&Protocol::Position(Position::new(3, -2))));
    // a kind that the host program did not register is a fault
    let section = [1u8, 1, 0, 8, 1, 0, 1, 0, 80, 0];
    let mut reader = PacketReader::new(&section);
    assert_eq!(
        manager.process_data(&manifest, &mut commands, 0, 0, &mut reader),
        Err(ProtocolError::UnknownKind)
    );
}

#[test]
fn a_server_and_a_client_run_on_the_builders_of_the_host_program() {
    let mut manifest = Manifest::new();
    manifest.register_replica(Positions);
    let config = ConnectionConfig::new(1000, 3000, false).unwrap();
    let mut server = Server::new(config, manifest);
    assert!(server.receive_handshake(address(1), 100, 0));
    // a position sent as a message is read by the builder of the host program
    assert_eq!(server.receive_data(&address(1), 1, &[1, 0, 0, 1, 0, 0, 0, 3, 0, 4]), Ok(()));
    // a message of a kind that has no builder ends the connection
    assert_eq!(
        server.receive_data(&address(1), 2, &[1, 0, 0, 1, 0, 3, 0, 0]),
        Err(ProtocolError::UnknownKind)
    );

    let mut manifest = Manifest::new();
    manifest.register_replica(Positions);
    let mut client = naia::client::session::Client::new(manifest);
    // the first data packet, with one message, a position
    let receipt = client.receive_packet(&[1, 0, 0, 1, 0, 9, 1, 0, 0, 0, 3, 0, 4]);
    assert_eq!(receipt.ack, Some(0));
    assert_eq!(receipt.fault, None);
    assert_eq!(client.server_tick(), 9);
    match client.next_event() {
        Some(naia::client::session::ClientEvent::Message(message)) => {
            assert!(message.equals(&Protocol::Position(Position::new(3, 4))));
        }
        _ => panic!("the message is handed out"),
    }
}
