use naia::client::command_receiver::CommandReceiver;
use naia::client::replica_action::ReplicaAction;
use naia::client::replica_manager::ReplicaManager;
use naia::diff_mask::DiffMask;
use naia::error::ProtocolError;
use naia::manifest::{KindBuilder, Manifest};
use naia::messages::Auth;
use naia::replicate::Replicate;
use naia::packet_reader::PacketReader;
use naia::protocol::{KeyCommand, Position, Protocol, ProtocolKind};
use naia::protocol_type::ProtocolType;
use naia::server::connection_table::{
    ConnectionConfig, ConnectionPhase, ConnectionTable, SweepAction,
};
use naia::server::host::{OutgoingPacket, Server};
use naia::server::room::{Rooms, ScopeTriple};
use naia::server::server_event::ServerEvent;
use naia::server::user::{Address, User};

fn manifest() -> Manifest<Protocol> {
    let mut manifest = Manifest::new();
    manifest.register_replica(KindBuilder::new(ProtocolKind::Position));
    manifest.register_replica(KindBuilder::new(ProtocolKind::KeyCommand));
    manifest.register_replica(KindBuilder::new(ProtocolKind::Auth));
    manifest.register_replica(KindBuilder::new(ProtocolKind::StringMessage));
    manifest
}

fn address(port: u16) -> Address {
    Address { ip: 0x7f00_0001, port }
}

fn config(require_auth: bool) -> ConnectionConfig {
    ConnectionConfig::new(1000, 3000, require_auth).unwrap()
}

fn server(require_auth: bool) -> Server<Protocol> {
    Server::new(config(require_auth), manifest())
}

fn position(x: i16, y: i16) -> Protocol {
    Protocol::Position(Position::new(x, y))
}

fn events(server: &mut Server<Protocol>) -> Vec<String> {
    let mut out = Vec::new();
    while let Some(event) = server.pop_event() {
        out.push(match event {
            ServerEvent::Connection(user) => format!("connection {}", user),
            ServerEvent::Disconnection(user, info) => {
                format!("disconnection {} at {}", user, info.timestamp)
            }
            ServerEvent::Authorization(user, _) => format!("authorization {}", user),
            ServerEvent::Message(user, _) => format!("message {}", user),
            ServerEvent::Command(user, entity, _) => format!("command {} for {}", user, entity),
            ServerEvent::Tick => "tick".to_string(),
        });
    }
    out
}

struct Client {
    manifest: Manifest<Protocol>,
    manager: ReplicaManager<Protocol>,
    commands: CommandReceiver<Protocol>,
}

impl Client {
    fn new() -> Self {
        Client { manifest: manifest(), manager: ReplicaManager::new(), commands: CommandReceiver::new() }
    }

    // takes in a data packet of the server: the code of the entity manager, the tick, the section
    fn receive(&mut self, packet: &OutgoingPacket) -> Result<(), ProtocolError> {
        assert_eq!(packet.payload[0], 2);
        let tick = u16::from_be_bytes([packet.payload[1], packet.payload[2]]);
        let mut reader = PacketReader::new(&packet.payload[3..]);
        self.manager.process_data(
            &self.manifest,
            &mut self.commands,
            tick,
            packet.packet_index,
            &mut reader,
        )?;
        assert!(!reader.has_more());
        Ok(())
    }

    fn events(&mut self) -> Vec<String> {
        let mut out = Vec::new();
        while let Some(action) = self.manager.pop_incoming_message() {
            out.push(match action {
                ReplicaAction::CreateEntity(e, c) => format!("spawn {} with {}", e, c.len()),
                ReplicaAction::DeleteEntity(e) => format!("despawn {}", e),
                ReplicaAction::AssignPawnEntity(e) => format!("own {}", e),
                ReplicaAction::UnassignPawnEntity(e) => format!("disown {}", e),
                ReplicaAction::ResetPawnEntity(e) => format!("reset {}", e),
                ReplicaAction::AddComponent(e, _) => format!("insert into {}", e),
                ReplicaAction::UpdateComponent(e, _) => format!("update in {}", e),
                ReplicaAction::RemoveComponent(e, _) => format!("remove from {}", e),
            });
        }
        out
    }
}

#[test]
fn a_timeout_of_less_than_two_heartbeats_is_rejected() {
    assert!(ConnectionConfig::new(1000, 1999, false).is_none());
    assert!(ConnectionConfig::new(1000, 2000, false).is_some());
    assert!(ConnectionConfig::new(0, 0, true).is_some());
    assert!(ConnectionConfig::new(u64::MAX, u64::MAX, true).is_none());
}

#[test]
fn a_handshake_makes_a_connection() {
    let mut table = ConnectionTable::new(config(false));
    assert_eq!(table.phase(0), ConnectionPhase::Handshaking);
    let outcome = table.handshake(address(1), 77, 10);
    assert_eq!(outcome.user, Some(0));
    assert!(outcome.established);
    assert_eq!(outcome.replaced, None);
    assert_eq!(table.phase(0), ConnectionPhase::Connected);
    assert_eq!(table.user_at(&address(1)), Some(0));
    assert_eq!(table.user_at(&address(2)), None);
    assert_eq!(table.get_user(0), Some(User { address: address(1), timestamp: 77 }));
    assert_eq!(table.len(), 1);
}

#[test]
fn a_handshake_with_the_same_timestamp_changes_nothing() {
    let mut table = ConnectionTable::new(config(false));
    table.handshake(address(1), 77, 10);
    let outcome = table.handshake(address(1), 77, 20);
    assert_eq!(outcome.user, Some(0));
    assert!(!outcome.established);
    assert_eq!(outcome.replaced, None);
    assert_eq!(table.len(), 1);
}

#[test]
fn a_handshake_with_another_timestamp_replaces_the_connection() {
    let mut server = server(false);
    assert!(server.receive_handshake(address(1), 100, 10));
    assert!(server.receive_handshake(address(1), 200, 20));
    assert_eq!(events(&mut server), vec!["connection 0", "disconnection 0 at 100", "connection 1"]);
    assert_eq!(server.connection_phase(0), ConnectionPhase::Disconnected);
    assert_eq!(server.connection_phase(1), ConnectionPhase::Connected);
    assert_eq!(server.get_users_count(), 1);
}

// the rule of the host program of these tests: only charlie with the right password gets in
fn lets_in(credentials: &Protocol) -> bool {
    match <Auth as Replicate<Protocol>>::cast_ref(credentials) {
        Some(auth) => {
            auth.username.get() == &b"charlie".to_vec() && auth.password.get() == &b"12345".to_vec()
        }
        None => false,
    }
}

fn auth_packet(username: &[u8], password: &[u8]) -> Vec<u8> {
    // a message section at tick 0 with one message
    let mut payload = vec![1u8, 0, 0, 1];
    payload.extend(2u16.to_be_bytes());
    Protocol::Auth(Auth::new(username.to_vec(), password.to_vec())).write(&mut payload);
    payload
}

#[test]
fn a_user_that_is_rejected_is_dropped_without_a_connection_event() {
    let mut server = server(true);
    assert!(server.receive_handshake(address(1), 100, 10));
    assert_eq!(server.connection_phase(0), ConnectionPhase::Authorizing);
    assert!(events(&mut server).is_empty());
    // bob asks to be let in with the password x
    assert_eq!(server.receive_data(&address(1), 20, &auth_packet(b"bob", b"x")), Ok(()));
    let accepted = match server.pop_event() {
        Some(ServerEvent::Authorization(user, credentials)) => {
            assert_eq!(user, 0);
            lets_in(&credentials)
        }
        _ => panic!("the request was not handed to the host program"),
    };
    assert!(!accepted);
    // the host program turns him down: the rejection goes to his address, and the host
    // program is told of no connection and of no disconnection
    assert_eq!(server.reject_connection(0), Some(address(1)));
    assert!(events(&mut server).is_empty());
    assert_eq!(server.connection_phase(0), ConnectionPhase::Disconnected);
    assert_eq!(server.get_users_count(), 0);
    assert_eq!(server.reject_connection(0), None);
}

#[test]
fn a_user_with_the_right_password_is_let_in() {
    let mut server = server(true);
    assert!(server.receive_handshake(address(1), 100, 10));
    assert_eq!(server.receive_data(&address(1), 20, &auth_packet(b"charlie", b"12345")), Ok(()));
    match server.pop_event() {
        Some(ServerEvent::Authorization(user, credentials)) => {
            assert!(lets_in(&credentials));
            server.accept_connection(user);
        }
        _ => panic!("the request was not handed to the host program"),
    }
    assert_eq!(events(&mut server), vec!["connection 0"]);
    assert_eq!(server.connection_phase(0), ConnectionPhase::Connected);
}

#[test]
fn a_user_that_is_accepted_becomes_connected() {
    let mut server = server(true);
    server.receive_handshake(address(1), 100, 10);
    server.accept_connection(0);
    assert_eq!(server.connection_phase(0), ConnectionPhase::Connected);
    assert_eq!(events(&mut server), vec!["connection 0"]);
    server.accept_connection(0);
    assert!(events(&mut server).is_empty());
    assert_eq!(server.reject_connection(0), None);
    assert_eq!(server.connection_phase(0), ConnectionPhase::Connected);
}

#[test]
fn a_connection_that_is_silent_for_the_timeout_is_ended() {
    let mut server = server(false);
    server.receive_handshake(address(1), 100, 0);
    server.receive_handshake(address(2), 200, 0);
    events(&mut server);
    assert_eq!(server.heard(&address(2), 2500), Some(1));
    assert_eq!(server.heard(&address(3), 2500), None);
    let beats = server.sweep(2999);
    assert_eq!(beats.len(), 2);
    assert!(events(&mut server).is_empty());
    let beats = server.sweep(3000);
    assert_eq!(beats.len(), 0);
    assert_eq!(events(&mut server), vec!["disconnection 0 at 100"]);
    assert_eq!(server.connection_phase(0), ConnectionPhase::Disconnected);
    assert_eq!(server.connection_phase(1), ConnectionPhase::Connected);
}

#[test]
fn a_heartbeat_is_due_when_nothing_was_sent_for_the_interval() {
    let mut table = ConnectionTable::new(config(false));
    table.handshake(address(1), 100, 0);
    assert!(table.sweep(999).is_empty());
    assert_eq!(table.sweep(1000), vec![SweepAction::Heartbeat(0, address(1))]);
    // the heartbeat counts as sent
    assert!(table.sweep(1500).is_empty());
    table.heard(&address(1), 1500);
    table.sent(0, 1800);
    assert!(table.sweep(2799).is_empty());
    assert_eq!(table.sweep(2800), vec![SweepAction::Heartbeat(0, address(1))]);
}

#[test]
fn no_heartbeat_goes_to_a_user_that_waits_to_be_authorized() {
    let mut table = ConnectionTable::new(config(true));
    table.handshake(address(1), 100, 0);
    assert!(table.sweep(1500).is_empty());
    assert!(table.accept_connection(0));
    assert_eq!(table.sweep(1500), vec![SweepAction::Heartbeat(0, address(1))]);
}

#[test]
fn a_forced_disconnect_ends_the_connection_with_an_event() {
    let mut server = server(false);
    server.receive_handshake(address(1), 100, 0);
    events(&mut server);
    server.user_force_disconnect(0);
    assert_eq!(events(&mut server), vec!["disconnection 0 at 100"]);
    server.user_force_disconnect(0);
    assert!(events(&mut server).is_empty());
}

#[test]
fn a_user_sees_an_entity_if_they_share_a_room_and_no_rule_forbids_it() {
    let mut rooms = Rooms::new();
    let first = rooms.make_room().unwrap();
    let second = rooms.make_room().unwrap();
    assert_eq!((first, second), (0, 1));
    assert!(rooms.has_room(first));
    assert!(!rooms.has_room(5));
    rooms.room_add_user(first, 10);
    rooms.room_add_entity(first, 100);
    rooms.room_add_entity(second, 200);
    assert!(rooms.in_scope(10, 100));
    assert!(!rooms.in_scope(10, 200));
    assert!(!rooms.in_scope(11, 100));
    rooms.room_add_user(second, 10);
    assert!(rooms.in_scope(10, 200));
    rooms.set_scope(10, 200, false);
    assert!(!rooms.in_scope(10, 200));
    assert!(rooms.in_scope(10, 100));
    rooms.set_scope(10, 200, true);
    assert!(rooms.in_scope(10, 200));
    rooms.room_remove_user(second, 10);
    assert!(!rooms.in_scope(10, 200));
    rooms.room_remove_entity(first, 100);
    assert!(!rooms.in_scope(10, 100));
}

#[test]
fn overlapping_rooms_are_united() {
    let mut rooms = Rooms::new();
    let first = rooms.make_room().unwrap();
    let second = rooms.make_room().unwrap();
    rooms.room_add_user(first, 10);
    rooms.room_add_user(second, 10);
    rooms.room_add_entity(first, 100);
    rooms.room_add_entity(second, 100);
    rooms.room_remove_user(first, 10);
    assert!(rooms.in_scope(10, 100));
    rooms.remove_user(10);
    assert!(!rooms.in_scope(10, 100));
}

#[test]
fn scopes_lists_every_user_with_every_entity_of_its_rooms() {
    let mut rooms = Rooms::new();
    let first = rooms.make_room().unwrap();
    let second = rooms.make_room().unwrap();
    rooms.room_add_user(first, 10);
    rooms.room_add_user(first, 11);
    rooms.room_add_user(first, 10);
    rooms.room_add_entity(first, 100);
    rooms.room_add_entity(first, 101);
    rooms.room_add_user(second, 12);
    rooms.room_add_entity(second, 100);
    let triple = |room, user, entity| ScopeTriple { room, user, entity };
    assert_eq!(
        rooms.scopes(),
        vec![
            triple(0, 10, 100),
            triple(0, 10, 101),
            triple(0, 11, 100),
            triple(0, 11, 101),
            triple(1, 12, 100),
        ]
    );
    rooms.remove_entity(100);
    assert_eq!(rooms.scopes(), vec![triple(0, 10, 101), triple(0, 11, 101)]);
}

#[test]
fn an_entity_owns_at_most_one_component_of_each_kind() {
    let mut server = server(false);
    let entity = server.spawn_entity().unwrap();
    assert!(server.has_entity(entity));
    let first = server.insert_component(entity, position(1, 2)).unwrap();
    assert_eq!(server.insert_component(entity, position(3, 4)), None);
    let second = server
        .insert_component(entity, Protocol::KeyCommand(KeyCommand::new(true, false, false, false)))
        .unwrap();
    assert!(first != second && first != entity && second != entity);
    assert_eq!(server.insert_component(99, position(3, 4)), None);
    assert_eq!(server.component_of_kind(entity, ProtocolKind::Position), Some(first));
    assert_eq!(server.component_of_kind(entity, ProtocolKind::KeyCommand), Some(second));
    assert!(server.get_component(first).unwrap().equals(&position(1, 2)));
}

#[test]
fn destroying_an_entity_destroys_its_components() {
    let mut server = server(false);
    let entity = server.spawn_entity().unwrap();
    let component = server.insert_component(entity, position(1, 2)).unwrap();
    assert!(server.despawn_entity(entity));
    assert!(!server.has_entity(entity));
    assert!(server.get_component(component).is_none());
    assert!(!server.despawn_entity(entity));
}

#[test]
fn updating_a_component_returns_what_has_changed() {
    let mut server = server(false);
    let entity = server.spawn_entity().unwrap();
    let component = server.insert_component(entity, position(1, 2)).unwrap();
    let mask = server.update_component(component, &position(1, 5)).unwrap();
    assert!(!mask.get_bit(0));
    assert!(mask.get_bit(1));
    assert!(server.get_component(component).unwrap().equals(&position(1, 5)));
    assert!(server
        .update_component(component, &Protocol::KeyCommand(KeyCommand::new(true, true, true, true)))
        .is_none());
    assert!(server.update_component(999, &position(0, 0)).is_none());
    let removed = server.remove_component(component).unwrap();
    assert!(removed.equals(&position(1, 5)));
    assert!(server.remove_component(component).is_none());
}

struct World {
    server: Server<Protocol>,
    room: u64,
    user: u64,
    entity: u64,
    component: u64,
}

// a server with room R that holds entity E with component C(x = 0), and a connected user
fn world() -> World {
    let mut server = server(false);
    let room = server.make_room().unwrap();
    let entity = server.spawn_entity().unwrap();
    let component = server.insert_component(entity, position(0, 0)).unwrap();
    server.room_add_entity(room, entity);
    assert!(server.receive_handshake(address(1), 100, 0));
    assert_eq!(events(&mut server), vec!["connection 0"]);
    World { server, room, user: 0, entity, component }
}

fn send(server: &mut Server<Protocol>, now: u64) -> Vec<OutgoingPacket> {
    server.update_entity_scopes();
    server.send_all_updates(now, 1200)
}

#[test]
fn joining_and_leaving_a_room_spawns_and_despawns_the_entity_once() {
    let mut w = world();
    let mut client = Client::new();

    // nothing is in scope: nothing is sent
    assert!(send(&mut w.server, 1).is_empty());

    // the user joins the room
    w.server.room_add_user(w.room, w.user);
    let packets = send(&mut w.server, 2);
    assert_eq!(packets.len(), 1);
    assert_eq!(packets[0].user, w.user);
    assert_eq!(packets[0].address, address(1));
    assert_eq!(packets[0].packet_index, 0);
    // entity section at tick 0: one record, create entity 0 with component 0 at (0, 0)
    assert_eq!(packets[0].payload, vec![2, 0, 0, 1, 1, 0, 0, 1, 0, 0, 0, 0, 0, 0, 0, 0]);
    client.receive(&packets[0]).unwrap();
    assert_eq!(client.events(), vec!["spawn 0 with 1", "insert into 0"]);
    assert!(client.manager.get_component(&0).unwrap().equals(&position(0, 0)));

    // until the packet is confirmed the creation is written again; the client skips it
    let again = send(&mut w.server, 3);
    assert_eq!(again.len(), 1);
    assert_eq!(again[0].packet_index, 1);
    assert_eq!(again[0].payload, packets[0].payload);
    client.receive(&again[0]).unwrap();
    assert!(client.events().is_empty());
    w.server.notify_packet(w.user, 0, true);
    w.server.notify_packet(w.user, 1, true);
    assert!(send(&mut w.server, 4).is_empty());

    // the user leaves the room
    w.server.room_remove_user(w.room, w.user);
    let packets = send(&mut w.server, 5);
    assert_eq!(packets.len(), 1);
    assert_eq!(packets[0].payload, vec![2, 0, 0, 1, 2, 0, 0]);
    client.receive(&packets[0]).unwrap();
    assert_eq!(client.events(), vec!["remove from 0", "despawn 0"]);
    let again = send(&mut w.server, 6);
    client.receive(&again[0]).unwrap();
    assert!(client.events().is_empty());
    assert!(!client.manager.has_entity(&0));
    w.server.notify_packet(w.user, 2, true);
    w.server.notify_packet(w.user, 3, true);
    assert!(send(&mut w.server, 7).is_empty());
}

#[test]
fn a_rule_of_the_host_program_keeps_an_entity_out_of_scope() {
    let mut w = world();
    w.server.room_add_user(w.room, w.user);
    w.server.reject_scope(w.room, w.user, w.entity);
    assert!(send(&mut w.server, 1).is_empty());
    w.server.accept_scope(w.room, w.user, w.entity);
    assert_eq!(send(&mut w.server, 2).len(), 1);
    assert_eq!(
        w.server.scopes(),
        vec![ScopeTriple { room: w.room, user: w.user, entity: w.entity }]
    );
}

#[test]
fn an_update_that_is_lost_is_sent_again_and_cleared_when_it_arrives() {
    let mut w = world();
    let mut client = Client::new();
    w.server.room_add_user(w.room, w.user);
    let packets = send(&mut w.server, 1);
    client.receive(&packets[0]).unwrap();
    w.server.notify_packet(w.user, 0, true);

    // the server mutates a property
    w.server.update_component(w.component, &position(5, 0)).unwrap();
    let lost = send(&mut w.server, 2);
    assert_eq!(lost.len(), 1);
    // update of component 0 under the mask of the first property: x = 5
    assert_eq!(lost[0].payload, vec![2, 0, 0, 1, 5, 0, 0, 1, 1, 0, 5]);
    // while the packet is under way nothing more is owed
    assert!(send(&mut w.server, 3).is_empty());

    // the packet is lost: the bit is set again and the update is sent again
    w.server.notify_packet(w.user, 1, false);
    let resent = send(&mut w.server, 4);
    assert_eq!(resent.len(), 1);
    assert_eq!(resent[0].packet_index, 2);
    assert_eq!(resent[0].payload, lost[0].payload);
    client.receive(&resent[0]).unwrap();
    assert!(client.manager.get_component(&0).unwrap().equals(&position(5, 0)));

    // it arrives: the bit is cleared
    w.server.notify_packet(w.user, 2, true);
    assert!(send(&mut w.server, 5).is_empty());
    assert_eq!(client.events(), vec!["spawn 0 with 1", "insert into 0", "update in 0"]);
}

#[test]
fn mutations_that_pile_up_go_out_in_one_update() {
    let mut w = world();
    let mut client = Client::new();
    w.server.room_add_user(w.room, w.user);
    let packets = send(&mut w.server, 1);
    client.receive(&packets[0]).unwrap();
    w.server.notify_packet(w.user, 0, true);
    w.server.update_component(w.component, &position(5, 0)).unwrap();
    let first = send(&mut w.server, 2);
    w.server.update_component(w.component, &position(5, 9)).unwrap();
    w.server.notify_packet(w.user, 1, false);
    let second = send(&mut w.server, 3);
    // both properties are owed: the one that was lost and the one that changed since
    assert_eq!(second[0].payload, vec![2, 0, 0, 1, 5, 0, 0, 1, 3, 0, 5, 0, 9]);
    // the lost packet was never received
    drop(first);
    client.receive(&second[0]).unwrap();
    assert!(client.manager.get_component(&0).unwrap().equals(&position(5, 9)));
}

#[test]
fn components_that_come_and_go_are_added_and_deleted() {
    let mut w = world();
    let mut client = Client::new();
    w.server.room_add_user(w.room, w.user);
    let packets = send(&mut w.server, 1);
    client.receive(&packets[0]).unwrap();
    w.server.notify_packet(w.user, 0, true);

    let keys = Protocol::KeyCommand(KeyCommand::new(true, false, true, false));
    let added = w.server.insert_component(w.entity, keys).unwrap();
    let packets = send(&mut w.server, 2);
    // add to entity 0 a key command under the key 1
    assert_eq!(packets[0].payload, vec![2, 0, 0, 1, 3, 0, 0, 0, 1, 0, 1, 1, 0, 1, 0]);
    client.receive(&packets[0]).unwrap();
    w.server.notify_packet(w.user, 1, true);
    assert_eq!(client.manager.get_components(&0).len(), 2);

    w.server.remove_component(added).unwrap();
    let packets = send(&mut w.server, 3);
    assert_eq!(packets[0].payload, vec![2, 0, 0, 1, 4, 0, 1]);
    client.receive(&packets[0]).unwrap();
    w.server.notify_packet(w.user, 2, true);
    assert_eq!(client.manager.get_components(&0).len(), 1);
    assert!(send(&mut w.server, 4).is_empty());
    assert_eq!(
        client.events(),
        vec!["spawn 0 with 1", "insert into 0", "insert into 0", "remove from 0"]
    );
}

#[test]
fn a_pawn_is_given_and_taken() {
    let mut w = world();
    let mut client = Client::new();
    w.server.room_add_user(w.room, w.user);
    w.server.update_entity_scopes();
    w.server.assign_pawn_entity(w.user, w.entity);
    let packets = send(&mut w.server, 1);
    // the pawn is given only once the client knows the entity
    assert_eq!(packets[0].payload[3], 1);
    client.receive(&packets[0]).unwrap();
    w.server.notify_packet(w.user, 0, true);
    let packets = send(&mut w.server, 2);
    assert_eq!(packets[0].payload, vec![2, 0, 0, 1, 6, 0, 0]);
    client.receive(&packets[0]).unwrap();
    assert!(client.manager.is_pawn(&0));
    w.server.notify_packet(w.user, 1, true);
    assert!(send(&mut w.server, 3).is_empty());
    w.server.unassign_pawn_entity(w.user, w.entity);
    let packets = send(&mut w.server, 4);
    assert_eq!(packets[0].payload, vec![2, 0, 0, 1, 7, 0, 0]);
    client.receive(&packets[0]).unwrap();
    assert!(!client.manager.is_pawn(&0));
    assert_eq!(client.events(), vec!["spawn 0 with 1", "insert into 0", "own 0", "disown 0"]);
}

#[test]
fn what_does_not_fit_a_packet_goes_out_with_the_next() {
    let mut server = server(false);
    let room = server.make_room().unwrap();
    let mut entities = Vec::new();
    for i in 0..10 {
        let entity = server.spawn_entity().unwrap();
        server.insert_component(entity, position(i, i)).unwrap();
        server.room_add_entity(room, entity);
        entities.push(entity);
    }
    server.receive_handshake(address(1), 100, 0);
    server.room_add_user(room, 0);
    server.update_entity_scopes();
    let mut client = Client::new();
    let mut index = 0u16;
    let mut rounds = 0;
    loop {
        // a create record takes 12 bytes: three fit into 40 bytes after the 4 of the header
        let packets = server.send_all_updates(rounds, 40);
        if packets.is_empty() {
            break;
        }
        assert_eq!(packets.len(), 1);
        assert!(packets[0].payload.len() <= 40);
        assert_eq!(packets[0].packet_index, index);
        client.receive(&packets[0]).unwrap();
        server.notify_packet(0, index, true);
        index += 1;
        rounds += 1;
        assert!(rounds < 10);
    }
    assert_eq!(rounds, 4);
    for i in 0..10u16 {
        assert!(client.manager.has_entity(&i));
        assert!(client.manager.get_component(&i).unwrap().equals(&position(i as i16, i as i16)));
    }
    assert_eq!(client.events().len(), 20);
}

#[test]
fn a_limit_too_small_for_any_record_sends_nothing_and_loses_nothing() {
    let mut w = world();
    w.server.room_add_user(w.room, w.user);
    w.server.update_entity_scopes();
    assert!(w.server.send_all_updates(1, 0).is_empty());
    assert!(w.server.send_all_updates(1, 3).is_empty());
    assert!(w.server.send_all_updates(1, 15).is_empty());
    let packets = w.server.send_all_updates(1, 16);
    assert_eq!(packets.len(), 1);
    assert_eq!(packets[0].payload.len(), 16);
}

#[test]
fn local_keys_are_free_again_once_a_delete_has_arrived() {
    let mut w = world();
    let mut client = Client::new();
    w.server.room_add_user(w.room, w.user);
    let packets = send(&mut w.server, 1);
    client.receive(&packets[0]).unwrap();
    w.server.notify_packet(w.user, 0, true);
    w.server.despawn_entity(w.entity);
    let second = w.server.spawn_entity().unwrap();
    w.server.insert_component(second, position(7, 7)).unwrap();
    w.server.room_add_entity(w.room, second);
    let packets = send(&mut w.server, 2);
    // the keys of the entity that is gone, and of its component, stay taken while the
    // delete is under way: the new entity and its component get the keys 1
    assert_eq!(
        packets[0].payload,
        vec![2, 0, 0, 2, 1, 0, 1, 1, 0, 0, 0, 1, 0, 7, 0, 7, 2, 0, 0]
    );
    client.receive(&packets[0]).unwrap();
    w.server.notify_packet(w.user, 1, true);
    assert!(!client.manager.has_entity(&0));
    assert!(!client.manager.has_component(&0));
    assert!(client.manager.get_component(&1).unwrap().equals(&position(7, 7)));
    // the delete has arrived: the keys 0 are free again
    let third = w.server.spawn_entity().unwrap();
    w.server.insert_component(third, position(8, 8)).unwrap();
    w.server.room_add_entity(w.room, third);
    let packets = send(&mut w.server, 3);
    assert_eq!(packets[0].payload, vec![2, 0, 0, 1, 1, 0, 0, 1, 0, 0, 0, 0, 0, 8, 0, 8]);
    client.receive(&packets[0]).unwrap();
    assert!(client.manager.get_component(&0).unwrap().equals(&position(8, 8)));
}

#[test]
fn a_tick_tells_the_host_program() {
    let mut server = server(false);
    assert_eq!(server.server_tick(), 0);
    server.advance_tick();
    assert_eq!(server.server_tick(), 1);
    assert_eq!(events(&mut server), vec!["tick"]);
}

fn command_section(tick: u16, entity: u16) -> Vec<u8> {
    let mut out = vec![3u8];
    out.extend(tick.to_be_bytes());
    out.push(1);
    out.extend(entity.to_be_bytes());
    out.extend([0u8, 1]);
    out.extend([0u8, 0, 0, 1]);
    out
}

#[test]
fn a_command_waits_for_its_tick_and_is_handed_out_for_a_pawn() {
    let mut w = world();
    w.server.room_add_user(w.room, w.user);
    w.server.update_entity_scopes();
    w.server.assign_pawn_entity(w.user, w.entity);
    // the client is two ticks ahead of the server
    assert_eq!(w.server.receive_data(&address(1), 1, &command_section(2, 0)), Ok(()));
    // a command for an entity that the user does not drive
    assert_eq!(w.server.receive_data(&address(1), 1, &command_section(2, 9)), Ok(()));
    // a command for a tick that the server has reached already is not kept
    assert_eq!(w.server.receive_data(&address(1), 1, &command_section(0, 0)), Ok(()));
    w.server.advance_tick();
    assert_eq!(events(&mut w.server), vec!["tick"]);
    w.server.advance_tick();
    assert_eq!(events(&mut w.server), vec![format!("command 0 for {}", w.entity), "tick".to_string()]);
    w.server.advance_tick();
    assert_eq!(events(&mut w.server), vec!["tick"]);
}

#[test]
fn a_message_of_a_connected_user_is_handed_to_the_host_program() {
    let mut w = world();
    // a message section at tick 0 with two messages: a position and a line of text
    let payload = vec![1u8, 0, 0, 2, 0, 0, 0, 1, 0, 2, 0, 3, 0, 2, 104, 105];
    assert_eq!(w.server.receive_data(&address(1), 1, &payload), Ok(()));
    assert_eq!(events(&mut w.server), vec!["message 0", "message 0"]);
}

#[test]
fn a_packet_from_nobody_is_passed_over() {
    let mut w = world();
    assert_eq!(w.server.receive_data(&address(9), 1, &[9, 9, 9]), Ok(()));
    assert!(events(&mut w.server).is_empty());
}

#[test]
fn a_packet_that_is_at_fault_ends_the_connection() {
    let mut w = world();
    w.server.room_add_user(w.room, w.user);
    // a section of an unknown manager
    assert_eq!(
        w.server.receive_data(&address(1), 1, &[9, 0, 0]),
        Err(ProtocolError::UnknownManager)
    );
    assert_eq!(events(&mut w.server), vec!["disconnection 0 at 100"]);
    assert_eq!(w.server.connection_phase(0), ConnectionPhase::Disconnected);
    assert!(send(&mut w.server, 2).is_empty());

    let mut w = world();
    assert_eq!(
        w.server.receive_data(&address(1), 1, &[1, 0, 0, 1, 0, 7]),
        Err(ProtocolError::UnknownKind)
    );
    assert_eq!(events(&mut w.server), vec!["disconnection 0 at 100"]);

    let mut w = world();
    assert_eq!(w.server.receive_data(&address(1), 1, &[3, 0]), Err(ProtocolError::Truncated));
    assert_eq!(events(&mut w.server), vec!["disconnection 0 at 100"]);
}

#[test]
fn a_user_that_is_gone_is_gone_from_the_rooms() {
    let mut w = world();
    w.server.room_add_user(w.room, w.user);
    assert_eq!(w.server.scopes().len(), 1);
    w.server.user_force_disconnect(w.user);
    assert!(w.server.scopes().is_empty());
    // the address can shake hands again and is a new user
    assert!(w.server.receive_handshake(address(1), 300, 50));
    assert_eq!(w.server.connection_phase(1), ConnectionPhase::Connected);
    assert!(send(&mut w.server, 51).is_empty());
}

#[test]
fn the_first_command_of_a_user_is_kept_whatever_its_tick() {
    let mut w = world();
    w.server.room_add_user(w.room, w.user);
    w.server.update_entity_scopes();
    w.server.assign_pawn_entity(w.user, w.entity);
    for _ in 0..50000u32 {
        w.server.advance_tick();
    }
    assert_eq!(w.server.server_tick(), 50000);
    while w.server.pop_event().is_some() {}
    // the client is two ticks ahead of the server
    assert_eq!(w.server.receive_data(&address(1), 1, &command_section(50002, 0)), Ok(()));
    w.server.advance_tick();
    assert_eq!(events(&mut w.server), vec!["tick"]);
    w.server.advance_tick();
    assert_eq!(events(&mut w.server), vec![format!("command 0 for {}", w.entity), "tick".to_string()]);
}

#[test]
fn the_mutator_marks_a_property_for_every_user_that_sees_the_component() {
    let mut w = world();
    let mut client = Client::new();
    w.server.room_add_user(w.room, w.user);
    let packets = send(&mut w.server, 1);
    client.receive(&packets[0]).unwrap();
    w.server.notify_packet(w.user, 0, true);
    assert!(send(&mut w.server, 2).is_empty());

    // the second property is marked, though its value is what it was
    let mut mask = DiffMask::new(1);
    mask.set_bit(1);
    w.server.mutate(w.component, &mask);
    let packets = send(&mut w.server, 3);
    assert_eq!(packets.len(), 1);
    // update of component 0 under the mask of the second property: y = 0
    assert_eq!(packets[0].payload, vec![2, 0, 0, 1, 5, 0, 0, 1, 2, 0, 0]);
    // a component that nobody sees
    w.server.mutate(99, &mask);
    w.server.notify_packet(w.user, 1, true);
    assert!(send(&mut w.server, 4).is_empty());
}

#[test]
fn a_confirmed_update_is_not_sent_again_when_another_packet_is_lost() {
    let mut w = world();
    w.server.room_add_user(w.room, w.user);
    send(&mut w.server, 1);
    w.server.notify_packet(w.user, 0, true);
    w.server.update_component(w.component, &position(5, 0)).unwrap();
    assert_eq!(send(&mut w.server, 2).len(), 1);
    w.server.notify_packet(w.user, 1, true);
    // a loss of a packet that was settled, or that was never sent, owes nothing
    w.server.notify_packet(w.user, 1, false);
    w.server.notify_packet(w.user, 7, false);
    assert!(send(&mut w.server, 3).is_empty());
}
