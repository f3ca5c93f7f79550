use naia::client::replica_action::ReplicaAction;
use naia::client::session::{Client, ClientEvent, Receipt, Signal};
use naia::error::ProtocolError;
use naia::manifest::{KindBuilder, Manifest};
use naia::messages::{Auth, StringMessage};
use naia::packet_type::{bare_packet, data_packet, handshake_packet, numbered_packet, PacketType};
use naia::protocol::{KeyCommand, Position, Protocol, ProtocolKind};
use naia::protocol_type::ProtocolType;
use naia::server::connection_table::{ConnectionConfig, ConnectionPhase};
use naia::server::dispatch::Reply;
use naia::server::endpoint::Endpoint;
use naia::server::host::Server;
use naia::server::server_event::ServerEvent;
use naia::server::user::Address;

fn registry() -> Manifest<Protocol> {
    let mut manifest = Manifest::new();
    manifest.register_replica(KindBuilder::new(ProtocolKind::Position));
    manifest.register_replica(KindBuilder::new(ProtocolKind::KeyCommand));
    manifest.register_replica(KindBuilder::new(ProtocolKind::Auth));
    manifest.register_replica(KindBuilder::new(ProtocolKind::StringMessage));
    manifest
}

fn home(port: u16) -> Address {
    Address { ip: 0x7f00_0001, port }
}

fn endpoint(require_auth: bool) -> Endpoint<Protocol> {
    let config = ConnectionConfig::new(1000, 3000, require_auth).unwrap();
    Endpoint::new(Server::new(config, registry()))
}

fn at(x: i16, y: i16) -> Protocol {
    Protocol::Position(Position::new(x, y))
}

fn line(text: &str) -> Protocol {
    Protocol::StringMessage(StringMessage::new(text.as_bytes().to_vec()))
}

fn quiet() -> Receipt {
    Receipt { signal: Signal::Quiet, ack: None, fault: None }
}

fn told(server: &mut Server<Protocol>) -> Vec<String> {
    let mut out = Vec::new();
    while let Some(event) = server.pop_event() {
        out.push(match event {
            ServerEvent::Connection(user) => format!("connection {}", user),
            ServerEvent::Disconnection(user, _) => format!("disconnection {}", user),
            ServerEvent::Authorization(user, _) => format!("authorization {}", user),
            ServerEvent::Message(user, _) => format!("message {}", user),
            ServerEvent::Command(user, entity, _) => format!("command {} for {}", user, entity),
            ServerEvent::Tick => "tick".to_string(),
        });
    }
    out
}

fn seen(client: &mut Client<Protocol>) -> Vec<String> {
    let mut out = Vec::new();
    while let Some(event) = client.next_event() {
        out.push(match event {
            ClientEvent::Message(_) => "message".to_string(),
            ClientEvent::Replica(ReplicaAction::CreateEntity(e, c)) => {
                format!("spawn {} with {}", e, c.len())
            }
            ClientEvent::Replica(ReplicaAction::DeleteEntity(e)) => format!("despawn {}", e),
            ClientEvent::Replica(ReplicaAction::AssignPawnEntity(e)) => format!("own {}", e),
            ClientEvent::Replica(ReplicaAction::UnassignPawnEntity(e)) => format!("disown {}", e),
            ClientEvent::Replica(ReplicaAction::ResetPawnEntity(e)) => format!("reset {}", e),
            ClientEvent::Replica(ReplicaAction::AddComponent(e, _)) => format!("insert into {}", e),
            ClientEvent::Replica(ReplicaAction::UpdateComponent(e, _)) => format!("update in {}", e),
            ClientEvent::Replica(ReplicaAction::RemoveComponent(e, _)) => {
                format!("remove from {}", e)
            }
            ClientEvent::ReplayCommand(queued) => format!("replay {} at {}", queued.pawn, queued.tick),
            ClientEvent::NewCommand(queued) => format!("command {} at {}", queued.pawn, queued.tick),
        });
    }
    out
}

// a client that has shaken hands with the server from port 1
fn connected(endpoint: &mut Endpoint<Protocol>) -> Client<Protocol> {
    let mut client = Client::new(registry());
    let knock = client.knock(100, None);
    assert_eq!(knock, vec![handshake_packet(100)]);
    let reply = endpoint.receive_packet(home(1), 0, &knock[0]);
    assert_eq!(reply, Reply::Granted);
    assert_eq!(reply.packet(), Some(vec![4]));
    assert_eq!(
        client.receive_packet(&[4]),
        Receipt { signal: Signal::Connection, ack: None, fault: None }
    );
    assert_eq!(told(&mut endpoint.server), vec!["connection 0"]);
    client
}

// sends what is owed, hands each packet to the client and its confirmation to the server
fn exchange(endpoint: &mut Endpoint<Protocol>, client: &mut Client<Protocol>, now: u64) -> usize {
    endpoint.server.update_entity_scopes();
    let packets = endpoint.send_all_updates(now, 1197);
    for packet in &packets {
        let bytes = data_packet(packet.packet_index, &packet.payload);
        let receipt = client.receive_packet(&bytes);
        assert_eq!(receipt.signal, Signal::Quiet);
        assert_eq!(receipt.fault, None);
        assert_eq!(receipt.ack, Some(packet.packet_index));
        let confirmation = numbered_packet(PacketType::Ack, packet.packet_index);
        assert_eq!(
            endpoint.receive_packet(home(1), now, &confirmation),
            Reply::Confirmed(packet.user, packet.packet_index)
        );
    }
    packets.len()
}

#[test]
fn a_new_client_is_not_connected_and_has_nothing_to_tell() {
    let mut client = Client::new(registry());
    assert!(!client.is_connected());
    assert_eq!(client.server_tick(), 0);
    assert!(client.next_event().is_none());
    assert!(!client.manager().has_entity(&0));
    assert_eq!(client.commands().command_history_count(&0), 0);
}

#[test]
fn the_handshake_of_the_server_connects_once() {
    let mut client = Client::new(registry());
    assert_eq!(
        client.receive_packet(&bare_packet(PacketType::ServerHandshake)),
        Receipt { signal: Signal::Connection, ack: None, fault: None }
    );
    assert!(client.is_connected());
    assert_eq!(client.receive_packet(&bare_packet(PacketType::ServerHandshake)), quiet());
    assert!(client.is_connected());
    assert_eq!(
        client.receive_packet(&bare_packet(PacketType::ServerReject)),
        Receipt { signal: Signal::Disconnection, ack: None, fault: None }
    );
    assert!(!client.is_connected());
}

#[test]
fn packets_that_are_not_for_a_client_change_nothing() {
    let mut client = Client::new(registry());
    assert_eq!(client.receive_packet(&[]), quiet());
    assert_eq!(client.receive_packet(&[2]), quiet());
    assert_eq!(client.receive_packet(&handshake_packet(5)), quiet());
    assert_eq!(client.receive_packet(&numbered_packet(PacketType::Ack, 3)), quiet());
    assert_eq!(client.receive_packet(&[9, 9, 9]), quiet());
    // a data packet too short to hold its number
    assert_eq!(client.receive_packet(&[1, 0]), quiet());
    assert!(!client.is_connected());
    assert!(client.next_event().is_none());
}

#[test]
fn a_data_packet_is_confirmed_even_when_it_is_at_fault() {
    let mut client = Client::new(registry());
    // an empty data packet
    assert_eq!(
        client.receive_packet(&data_packet(7, &[])),
        Receipt { signal: Signal::Quiet, ack: Some(7), fault: None }
    );
    // a section of the command manager is not for a client
    assert_eq!(
        client.receive_packet(&data_packet(8, &[3, 0, 5, 0])),
        Receipt { signal: Signal::Quiet, ack: Some(8), fault: Some(ProtocolError::UnknownManager) }
    );
    // the tick of the first section is taken all the same
    assert_eq!(client.server_tick(), 5);
    // a section that ends before its tick
    assert_eq!(
        client.receive_packet(&data_packet(9, &[2, 0])),
        Receipt { signal: Signal::Quiet, ack: Some(9), fault: Some(ProtocolError::Truncated) }
    );
    assert_eq!(client.server_tick(), 5);
    // a message of a kind that nobody registered
    assert_eq!(
        client.receive_packet(&data_packet(10, &[1, 0, 6, 1, 0, 9])),
        Receipt { signal: Signal::Quiet, ack: Some(10), fault: Some(ProtocolError::UnknownKind) }
    );
    // a message section that ends before its count
    assert_eq!(
        client.receive_packet(&data_packet(11, &[1, 0, 6])),
        Receipt { signal: Signal::Quiet, ack: Some(11), fault: Some(ProtocolError::Truncated) }
    );
    assert!(client.next_event().is_none());
}

#[test]
fn a_user_that_joins_a_room_sees_the_entity_then_its_component_and_loses_it_once() {
    let mut endpoint = endpoint(false);
    let room = endpoint.server.make_room().unwrap();
    let entity = endpoint.server.spawn_entity().unwrap();
    endpoint.server.insert_component(entity, at(0, 0)).unwrap();
    endpoint.server.room_add_entity(room, entity);
    let mut client = connected(&mut endpoint);

    assert_eq!(exchange(&mut endpoint, &mut client, 1), 0);
    endpoint.server.room_add_user(room, 0);
    assert_eq!(exchange(&mut endpoint, &mut client, 2), 1);
    match client.next_event() {
        Some(ClientEvent::Replica(ReplicaAction::CreateEntity(key, replicas))) => {
            assert_eq!(key, 0);
            assert_eq!(replicas.len(), 1);
            assert!(replicas[0].equals(&at(0, 0)));
        }
        _ => panic!("the entity comes first"),
    }
    match client.next_event() {
        Some(ClientEvent::Replica(ReplicaAction::AddComponent(key, replica))) => {
            assert_eq!(key, 0);
            assert!(replica.equals(&at(0, 0)));
        }
        _ => panic!("its component comes second"),
    }
    assert!(client.next_event().is_none());
    assert_eq!(endpoint.watch.len(), 0);
    assert_eq!(exchange(&mut endpoint, &mut client, 3), 0);

    endpoint.server.room_remove_user(room, 0);
    assert_eq!(exchange(&mut endpoint, &mut client, 4), 1);
    assert_eq!(seen(&mut client), vec!["remove from 0", "despawn 0"]);
    assert_eq!(exchange(&mut endpoint, &mut client, 5), 0);
    assert!(seen(&mut client).is_empty());
    assert!(!client.manager().has_entity(&0));
}

#[test]
fn a_packet_that_is_not_confirmed_in_time_is_given_up_and_its_update_sent_again() {
    let mut endpoint = endpoint(false);
    let room = endpoint.server.make_room().unwrap();
    let entity = endpoint.server.spawn_entity().unwrap();
    let component = endpoint.server.insert_component(entity, at(0, 0)).unwrap();
    endpoint.server.room_add_entity(room, entity);
    let mut client = connected(&mut endpoint);
    endpoint.server.room_add_user(room, 0);
    assert_eq!(exchange(&mut endpoint, &mut client, 10), 1);
    assert_eq!(seen(&mut client), vec!["spawn 0 with 1", "insert into 0"]);

    // the server changes x; the packet with the update is lost on the way
    endpoint.server.update_component(component, &at(5, 0));
    let lost = endpoint.send_all_updates(100, 1197);
    assert_eq!(lost.len(), 1);
    assert_eq!(endpoint.watch.len(), 1);
    // while the packet is under way the update is not written again
    assert!(endpoint.send_all_updates(200, 1197).is_empty());
    // not overdue yet
    assert_eq!(endpoint.give_up_overdue(599, 500), 0);
    assert!(endpoint.send_all_updates(599, 1197).is_empty());
    // overdue: the packet counts as lost, and the update is owed again
    assert_eq!(endpoint.give_up_overdue(600, 500), 1);
    assert_eq!(endpoint.watch.len(), 0);
    let again = endpoint.send_all_updates(601, 1197);
    assert_eq!(again.len(), 1);
    assert_eq!(again[0].payload, lost[0].payload);
    assert_ne!(again[0].packet_index, lost[0].packet_index);
    let bytes = data_packet(again[0].packet_index, &again[0].payload);
    assert_eq!(client.receive_packet(&bytes).ack, Some(again[0].packet_index));
    assert_eq!(seen(&mut client), vec!["update in 0"]);
    assert!(client.manager().get_component(&0).unwrap().equals(&at(5, 0)));
    // confirmed: nothing is owed any more, whatever time passes
    let confirmation = numbered_packet(PacketType::Ack, again[0].packet_index);
    assert_eq!(
        endpoint.receive_packet(home(1), 602, &confirmation),
        Reply::Confirmed(0, again[0].packet_index)
    );
    assert_eq!(endpoint.watch.len(), 0);
    assert_eq!(endpoint.give_up_overdue(5000, 500), 0);
    assert!(endpoint.send_all_updates(5001, 1197).is_empty());
}

#[test]
fn the_server_takes_each_packet_by_its_type() {
    let mut endpoint = endpoint(false);
    // a handshake too short to hold a timestamp
    assert_eq!(endpoint.receive_packet(home(1), 0, &[3, 0, 0, 0]), Reply::Nothing);
    assert!(told(&mut endpoint.server).is_empty());
    assert_eq!(endpoint.server.get_users_count(), 0);
    // a handshake
    assert_eq!(endpoint.receive_packet(home(1), 0, &handshake_packet(9)), Reply::Granted);
    assert_eq!(told(&mut endpoint.server), vec!["connection 0"]);
    // a heartbeat, an unknown packet, an empty packet
    assert_eq!(endpoint.receive_packet(home(1), 1, &[2]), Reply::Nothing);
    assert_eq!(endpoint.receive_packet(home(1), 1, &[77, 1, 2]), Reply::Nothing);
    assert_eq!(endpoint.receive_packet(home(1), 1, &[]), Reply::Nothing);
    // a data packet too short to hold its number
    assert_eq!(endpoint.receive_packet(home(1), 1, &[1, 0]), Reply::Nothing);
    // a confirmation from an address without a connection
    assert_eq!(
        endpoint.receive_packet(home(2), 1, &numbered_packet(PacketType::Ack, 0)),
        Reply::Nothing
    );
    // a confirmation too short to hold a number
    assert_eq!(endpoint.receive_packet(home(1), 1, &[6, 0]), Reply::Nothing);
    assert!(told(&mut endpoint.server).is_empty());
    // a data packet with a fault is confirmed, and ends the connection
    assert_eq!(
        endpoint.receive_packet(home(1), 2, &data_packet(4, &[9, 0, 0])),
        Reply::Ack(4)
    );
    assert_eq!(Reply::Ack(4).packet(), Some(vec![6, 0, 4]));
    assert_eq!(Reply::Nothing.packet(), None);
    assert_eq!(Reply::Confirmed(0, 4).packet(), None);
    assert_eq!(told(&mut endpoint.server), vec!["disconnection 0"]);
    assert_eq!(endpoint.server.connection_phase(0), ConnectionPhase::Disconnected);
}

#[test]
fn a_heartbeat_keeps_a_connection_alive() {
    let mut endpoint = endpoint(false);
    let _client = connected(&mut endpoint);
    // heard at 2500: at 5000 the user is still there, though the handshake is long ago
    assert_eq!(endpoint.receive_packet(home(1), 2500, &bare_packet(PacketType::Heartbeat)), Reply::Nothing);
    endpoint.server.sweep(5000);
    assert!(told(&mut endpoint.server).is_empty());
    endpoint.server.sweep(5500);
    assert_eq!(told(&mut endpoint.server), vec!["disconnection 0"]);
}

#[test]
fn a_message_of_the_server_reaches_the_host_program_of_the_client_first() {
    let mut endpoint = endpoint(false);
    let room = endpoint.server.make_room().unwrap();
    let entity = endpoint.server.spawn_entity().unwrap();
    endpoint.server.insert_component(entity, at(1, 1)).unwrap();
    endpoint.server.room_add_entity(room, entity);
    let mut client = connected(&mut endpoint);
    endpoint.server.room_add_user(room, 0);
    endpoint.server.update_entity_scopes();
    endpoint.server.advance_tick();
    endpoint.server.advance_tick();
    assert_eq!(told(&mut endpoint.server), vec!["tick", "tick"]);

    // the entity goes out first, the message second; the message is handed out first
    let updates = endpoint.send_all_updates(5, 1197);
    assert_eq!(updates.len(), 1);
    assert_eq!(updates[0].packet_index, 0);
    let message = endpoint.server.send_message(0, &line("hi"), 6).unwrap();
    assert_eq!(message.user, 0);
    assert_eq!(message.address, home(1));
    assert_eq!(message.packet_index, 1);
    // the code of the message manager, tick 2, one message, a line of text of two bytes
    assert_eq!(message.payload, vec![1, 0, 2, 1, 0, 3, 0, 2, 104, 105]);
    client.receive_packet(&data_packet(0, &updates[0].payload));
    let receipt = client.receive_packet(&data_packet(1, &message.payload));
    assert_eq!(receipt, Receipt { signal: Signal::Quiet, ack: Some(1), fault: None });
    assert_eq!(client.server_tick(), 2);
    match client.next_event() {
        Some(ClientEvent::Message(received)) => assert!(received.equals(&line("hi"))),
        _ => panic!("the message comes first"),
    }
    assert_eq!(seen(&mut client), vec!["spawn 0 with 1", "insert into 0"]);

    // nobody is sent a message who is not connected
    assert!(endpoint.server.send_message(5, &line("hi"), 7).is_none());
}

#[test]
fn a_message_of_a_client_reaches_the_host_program_of_the_server() {
    let mut endpoint = endpoint(false);
    let mut client = connected(&mut endpoint);
    let packet = client.send_message(&line("yo"));
    // data packet 0: the code of the message manager, tick 0, one message, a line of text
    assert_eq!(packet, vec![1, 0, 0, 1, 0, 0, 1, 0, 3, 0, 2, 121, 111]);
    assert_eq!(endpoint.receive_packet(home(1), 1, &packet), Reply::Ack(0));
    match endpoint.server.pop_event() {
        Some(ServerEvent::Message(user, message)) => {
            assert_eq!(user, 0);
            assert!(message.equals(&line("yo")));
        }
        _ => panic!("the message is handed to the host program"),
    }
    // the next packet has the next number
    let packet = client.send_message(&line("yo"));
    assert_eq!(packet[..3], [1, 0, 1]);
}

#[test]
fn a_client_offers_its_credentials_behind_the_handshake() {
    let mut endpoint = endpoint(true);
    let mut client = Client::new(registry());
    let credentials = Protocol::Auth(Auth::new(b"bob".to_vec(), b"x".to_vec()));
    let knock = client.knock(100, Some(&credentials));
    assert_eq!(knock.len(), 2);
    assert_eq!(knock[0], handshake_packet(100));
    assert_eq!(PacketType::get_from_packet(&knock[1]), PacketType::Data);
    assert_eq!(endpoint.receive_packet(home(1), 0, &knock[0]), Reply::Granted);
    assert!(told(&mut endpoint.server).is_empty());
    assert_eq!(endpoint.server.connection_phase(0), ConnectionPhase::Authorizing);
    assert_eq!(endpoint.receive_packet(home(1), 1, &knock[1]), Reply::Ack(0));
    match endpoint.server.pop_event() {
        Some(ServerEvent::Authorization(user, offered)) => {
            assert_eq!(user, 0);
            assert!(offered.equals(&credentials));
        }
        _ => panic!("the host program is asked to authorize"),
    }
    // the host program turns the user down: the client hears of it, the server tells of no
    // connection
    assert_eq!(endpoint.server.reject_connection(0), Some(home(1)));
    assert_eq!(
        client.receive_packet(&bare_packet(PacketType::ServerReject)),
        Receipt { signal: Signal::Disconnection, ack: None, fault: None }
    );
    assert!(told(&mut endpoint.server).is_empty());
}

#[test]
fn a_quiet_client_knocks_again_or_gives_a_sign_of_life() {
    let mut client = Client::new(registry());
    let credentials = line("me");
    assert!(client.idle(100, None, 999, 1000).is_empty());
    assert_eq!(client.idle(100, None, 1000, 1000), vec![handshake_packet(100)]);
    let knock = client.idle(100, Some(&credentials), 1500, 1000);
    assert_eq!(knock.len(), 2);
    assert_eq!(knock[0], handshake_packet(100));
    assert_eq!(knock[1], vec![1, 0, 0, 1, 0, 0, 1, 0, 3, 0, 2, 109, 101]);
    client.receive_packet(&[4]);
    assert!(client.idle(100, Some(&credentials), 999, 1000).is_empty());
    assert_eq!(client.idle(100, Some(&credentials), 1000, 1000), vec![vec![2u8]]);
    // the packet with the credentials took number 0
    assert_eq!(client.send_message(&credentials)[..3], [1, 0, 1]);
}

#[test]
fn a_command_goes_out_for_the_tick_after_the_one_last_heard() {
    let mut endpoint = endpoint(false);
    let room = endpoint.server.make_room().unwrap();
    let entity = endpoint.server.spawn_entity().unwrap();
    endpoint.server.insert_component(entity, at(0, 0)).unwrap();
    endpoint.server.room_add_entity(room, entity);
    let mut client = connected(&mut endpoint);
    endpoint.server.room_add_user(room, 0);
    endpoint.server.update_entity_scopes();
    endpoint.server.assign_pawn_entity(0, entity);
    for _ in 0..7 {
        endpoint.server.advance_tick();
    }
    told(&mut endpoint.server);
    while exchange(&mut endpoint, &mut client, 1) > 0 {}
    assert_eq!(client.server_tick(), 7);
    assert_eq!(seen(&mut client), vec!["spawn 0 with 1", "insert into 0", "own 0"]);

    let right = Protocol::KeyCommand(KeyCommand::new(false, false, false, true));
    let packet = client.send_command(0, &right);
    // data packet 0: the code of the command manager, tick 8, one command for entity 0 of
    // the key command kind with four keys
    assert_eq!(packet, vec![1, 0, 0, 3, 0, 8, 1, 0, 0, 0, 1, 0, 0, 0, 1]);
    assert_eq!(seen(&mut client), vec!["command 0 at 8"]);
    assert_eq!(client.commands().command_history_count(&0), 1);

    assert_eq!(endpoint.receive_packet(home(1), 2, &packet), Reply::Ack(0));
    endpoint.server.advance_tick();
    assert_eq!(told(&mut endpoint.server), vec![format!("command 0 for {}", entity), "tick".to_string()]);
}

#[test]
fn events_come_out_replicas_first_then_replays_then_new_commands() {
    let mut endpoint = endpoint(false);
    let room = endpoint.server.make_room().unwrap();
    let entity = endpoint.server.spawn_entity().unwrap();
    let component = endpoint.server.insert_component(entity, at(0, 0)).unwrap();
    endpoint.server.room_add_entity(room, entity);
    let mut client = connected(&mut endpoint);
    endpoint.server.room_add_user(room, 0);
    endpoint.server.update_entity_scopes();
    endpoint.server.assign_pawn_entity(0, entity);
    while exchange(&mut endpoint, &mut client, 1) > 0 {}
    assert_eq!(seen(&mut client), vec!["spawn 0 with 1", "insert into 0", "own 0"]);

    let right = Protocol::KeyCommand(KeyCommand::new(false, false, false, true));
    client.send_command(0, &right);
    assert!(client.update_pawn_component(0, &at(1, 0)));
    assert!(!client.update_pawn_component(9, &at(1, 0)));
    assert_eq!(seen(&mut client), vec!["command 0 at 1"]);

    // the server moves the pawn at tick 0, which the client has left behind: the update
    // comes, the copy is set back, the command that waited is dropped, and the command of
    // tick 1 is run again
    endpoint.server.update_component(component, &at(0, 3));
    client.send_command(0, &right);
    assert_eq!(exchange(&mut endpoint, &mut client, 2), 1);
    assert_eq!(client.server_tick(), 0);
    assert_eq!(seen(&mut client), vec!["update in 0", "replay 0 at 1", "reset 0"]);
    assert!(client.manager().get_component(&0).unwrap().equals(&at(0, 3)));
    let copies = client.manager().get_pawn_components(&0);
    assert_eq!(copies.len(), 1);
    assert!(copies[0].equals(&at(0, 3)));
}
