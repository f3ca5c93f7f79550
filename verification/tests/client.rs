use naia::action_writer::{
    write_add_component, write_component, write_keyed, write_update_component,
};
use naia::client::command_receiver::CommandReceiver;
use naia::client::replica_action::ReplicaAction;
use naia::client::replica_manager::ReplicaManager;
use naia::diff_mask::DiffMask;
use naia::error::ProtocolError;
use naia::manifest::{KindBuilder, Manifest};
use naia::packet_reader::PacketReader;
use naia::protocol::{KeyCommand, Position, Protocol, ProtocolKind};
use naia::protocol_type::ProtocolType;
use naia::replica_action_type::ReplicaActionType;

fn manifest() -> Manifest<Protocol> {
    let mut manifest = Manifest::new();
    manifest.register_replica(KindBuilder::new(ProtocolKind::Position));
    manifest.register_replica(KindBuilder::new(ProtocolKind::KeyCommand));
    manifest
}

fn position(x: i16, y: i16) -> Protocol {
    Protocol::Position(Position::new(x, y))
}

fn create_entity(out: &mut Vec<u8>, entity: u16, components: &[(u16, Protocol)]) {
    write_keyed(out, ReplicaActionType::CreateEntity, entity);
    out.push(components.len() as u8);
    for (key, replica) in components {
        write_component(out, *key, replica);
    }
}

fn update_x(out: &mut Vec<u8>, key: u16, x: i16) {
    let mut mask = DiffMask::new(1);
    mask.set_bit(0);
    write_update_component(out, key, &mask, &position(x, 0));
}

fn section(records: u8, body: Vec<u8>) -> Vec<u8> {
    let mut out = vec![records];
    out.extend(body);
    out
}

struct Client {
    manifest: Manifest<Protocol>,
    manager: ReplicaManager<Protocol>,
    commands: CommandReceiver<Protocol>,
}

impl Client {
    fn new() -> Self {
        Client { manifest: manifest(), manager: ReplicaManager::new(), commands: CommandReceiver::new() }
    }

    fn process(&mut self, tick: u16, bytes: &[u8]) -> Result<(), ProtocolError> {
        let mut reader = PacketReader::new(bytes);
        self.manager.process_data(&self.manifest, &mut self.commands, tick, 0, &mut reader)
    }

    fn events(&mut self) -> Vec<String> {
        let mut out = Vec::new();
        while let Some(action) = self.manager.pop_incoming_message() {
            out.push(match action {
                ReplicaAction::CreateEntity(e, c) => format!("create {} with {}", e, c.len()),
                ReplicaAction::DeleteEntity(e) => format!("delete {}", e),
                ReplicaAction::AssignPawnEntity(e) => format!("assign {}", e),
                ReplicaAction::UnassignPawnEntity(e) => format!("unassign {}", e),
                ReplicaAction::ResetPawnEntity(e) => format!("reset {}", e),
                ReplicaAction::AddComponent(e, _) => format!("add to {}", e),
                ReplicaAction::UpdateComponent(e, _) => format!("update in {}", e),
                ReplicaAction::RemoveComponent(e, _) => format!("remove from {}", e),
            });
        }
        out
    }
}

#[test]
fn a_new_manager_knows_nothing() {
    let mut client = Client::new();
    assert!(!client.manager.has_entity(&1));
    assert!(!client.manager.has_component(&1));
    assert!(client.manager.get_component(&1).is_none());
    assert!(client.manager.get_components(&1).is_empty());
    assert!(client.manager.pop_incoming_message().is_none());
}

#[test]
fn an_empty_section_changes_nothing() {
    let mut client = Client::new();
    assert_eq!(client.process(0, &[0]), Ok(()));
    assert!(client.events().is_empty());
    assert_eq!(client.process(0, &[]), Err(ProtocolError::Truncated));
}

#[test]
fn create_entity_stores_the_entity_and_its_components() {
    let mut client = Client::new();
    let mut body = Vec::new();
    create_entity(&mut body, 7, &[(70, position(1, 2)), (71, Protocol::KeyCommand(KeyCommand::new(true, false, false, false)))]);
    assert_eq!(body[..4], [1, 0, 7, 2]);
    assert_eq!(client.process(0, &section(1, body)), Ok(()));
    assert!(client.manager.has_entity(&7));
    assert!(client.manager.has_component(&70));
    assert!(client.manager.has_component(&71));
    assert!(client.manager.get_component(&70).unwrap().equals(&position(1, 2)));
    assert_eq!(client.manager.get_components(&7).len(), 2);
    assert_eq!(client.events(), vec!["create 7 with 2", "add to 7", "add to 7"]);
}

#[test]
fn a_duplicate_create_is_skipped_but_its_payload_is_consumed() {
    let mut client = Client::new();
    let mut body = Vec::new();
    create_entity(&mut body, 7, &[(70, position(1, 2))]);
    create_entity(&mut body, 7, &[(70, position(9, 9))]);
    create_entity(&mut body, 8, &[(80, position(3, 4))]);
    assert_eq!(client.process(0, &section(3, body)), Ok(()));
    assert_eq!(client.events(), vec!["create 7 with 1", "add to 7", "create 8 with 1", "add to 8"]);
    assert!(client.manager.get_component(&70).unwrap().equals(&position(1, 2)));
    assert!(client.manager.get_component(&80).unwrap().equals(&position(3, 4)));
}

#[test]
fn a_component_whose_key_is_taken_is_not_attached() {
    let mut client = Client::new();
    let mut body = Vec::new();
    create_entity(&mut body, 7, &[(70, position(1, 2))]);
    create_entity(&mut body, 8, &[(70, position(5, 5)), (80, position(3, 4))]);
    assert_eq!(client.process(0, &section(2, body)), Ok(()));
    assert_eq!(client.events(), vec!["create 7 with 1", "add to 7", "create 8 with 1", "add to 8"]);
    assert!(client.manager.get_component(&70).unwrap().equals(&position(1, 2)));
    assert_eq!(client.manager.get_components(&8).len(), 1);
}

#[test]
fn delete_entity_removes_the_entity_and_tells_of_each_component() {
    let mut client = Client::new();
    let mut body = Vec::new();
    create_entity(&mut body, 7, &[(70, position(1, 2)), (71, position(3, 4))]);
    write_keyed(&mut body, ReplicaActionType::DeleteEntity, 7);
    assert_eq!(client.process(0, &section(2, body)), Ok(()));
    assert!(!client.manager.has_entity(&7));
    assert!(!client.manager.has_component(&70));
    assert!(!client.manager.has_component(&71));
    assert_eq!(
        client.events(),
        vec!["create 7 with 2", "add to 7", "add to 7", "remove from 7", "remove from 7", "delete 7"]
    );
}

#[test]
fn deleting_what_is_not_known_changes_nothing() {
    let mut client = Client::new();
    let mut body = Vec::new();
    write_keyed(&mut body, ReplicaActionType::DeleteEntity, 7);
    write_keyed(&mut body, ReplicaActionType::DeleteComponent, 70);
    assert_eq!(client.process(0, &section(2, body)), Ok(()));
    assert!(client.events().is_empty());
}

#[test]
fn add_component_attaches_to_a_known_entity() {
    let mut client = Client::new();
    let mut body = Vec::new();
    create_entity(&mut body, 7, &[]);
    write_add_component(&mut body, 7, 70, &position(5, 6));
    assert_eq!(client.process(0, &section(2, body)), Ok(()));
    assert!(client.manager.get_component(&70).unwrap().equals(&position(5, 6)));
    assert_eq!(client.events(), vec!["create 7 with 0", "add to 7"]);
    let typed: Option<&Position> = client.manager.get_component_by_type::<Position>(&7);
    assert_eq!(*typed.unwrap().x.get(), 5);
    assert!(client.manager.get_component_by_type::<KeyCommand>(&7).is_none());
    assert!(client.manager.get_component_by_type::<Position>(&8).is_none());
}

#[test]
fn add_component_to_an_unknown_entity_or_under_a_taken_key_is_skipped() {
    let mut client = Client::new();
    let mut body = Vec::new();
    write_add_component(&mut body, 7, 70, &position(5, 6));
    create_entity(&mut body, 7, &[(70, position(1, 1))]);
    write_add_component(&mut body, 7, 70, &position(9, 9));
    assert_eq!(client.process(0, &section(3, body)), Ok(()));
    assert_eq!(client.events(), vec!["create 7 with 1", "add to 7"]);
    assert!(client.manager.get_component(&70).unwrap().equals(&position(1, 1)));
}

#[test]
fn delete_component_removes_the_replica() {
    let mut client = Client::new();
    let mut body = Vec::new();
    create_entity(&mut body, 7, &[(70, position(1, 2)), (71, position(3, 4))]);
    write_keyed(&mut body, ReplicaActionType::DeleteComponent, 70);
    assert_eq!(client.process(0, &section(2, body)), Ok(()));
    assert!(!client.manager.has_component(&70));
    assert!(client.manager.has_component(&71));
    assert!(client.manager.has_entity(&7));
    assert_eq!(client.manager.get_components(&7).len(), 1);
    assert_eq!(client.events(), vec!["create 7 with 2", "add to 7", "add to 7", "remove from 7"]);
}

#[test]
fn update_component_changes_the_masked_properties() {
    let mut client = Client::new();
    let mut body = Vec::new();
    create_entity(&mut body, 7, &[(70, position(1, 2))]);
    update_x(&mut body, 70, 50);
    assert_eq!(client.process(0, &section(2, body)), Ok(()));
    assert!(client.manager.get_component(&70).unwrap().equals(&position(50, 2)));
    assert_eq!(client.events(), vec!["create 7 with 1", "add to 7", "update in 7"]);
}

#[test]
fn create_then_add_then_update_gives_the_client_what_the_server_has() {
    // the server's component 70 goes from (1, 2) to (1, 9); component 71 is added
    let server_first = position(1, 9);
    let server_second = Protocol::KeyCommand(KeyCommand::new(false, true, false, true));
    let mut client = Client::new();
    let mut body = Vec::new();
    create_entity(&mut body, 7, &[(70, position(1, 2))]);
    write_add_component(&mut body, 7, 71, &server_second);
    let mask = position(1, 2).diff(&server_first);
    write_update_component(&mut body, 70, &mask, &server_first);
    assert_eq!(client.process(0, &section(3, body)), Ok(()));
    assert!(client.manager.get_component(&70).unwrap().equals(&server_first));
    assert!(client.manager.get_component(&71).unwrap().equals(&server_second));
}

#[test]
fn an_update_for_an_unknown_component_is_a_fault() {
    let mut client = Client::new();
    let mut body = Vec::new();
    update_x(&mut body, 70, 50);
    assert_eq!(client.process(0, &section(1, body)), Err(ProtocolError::UnknownComponent));
}

#[test]
fn a_mask_of_the_wrong_width_is_a_fault() {
    let mut client = Client::new();
    let mut body = Vec::new();
    create_entity(&mut body, 7, &[(70, position(1, 2))]);
    write_keyed(&mut body, ReplicaActionType::UpdateComponent, 70);
    body.extend([2u8, 1, 0, 0, 5]);
    assert_eq!(client.process(0, &section(2, body)), Err(ProtocolError::MalformedMask));
    // the record before the fault stays applied
    assert!(client.manager.has_entity(&7));
    assert!(client.manager.get_component(&70).unwrap().equals(&position(1, 2)));
}

#[test]
fn an_unknown_action_code_is_a_fault() {
    let mut client = Client::new();
    assert_eq!(client.process(0, &[1, 9, 0, 0]), Err(ProtocolError::UnknownAction));
    assert_eq!(client.process(0, &[1, 0, 0, 0]), Err(ProtocolError::UnknownAction));
}

#[test]
fn an_unknown_kind_is_a_fault() {
    let mut client = Client::new();
    // create entity 7 with one component of a kind that the protocol does not declare
    let bytes = [1u8, 1, 0, 7, 1, 0, 99, 0, 70, 0, 0, 0, 0];
    assert_eq!(client.process(0, &bytes), Err(ProtocolError::UnknownKind));
    assert!(!client.manager.has_entity(&7));
}

#[test]
fn a_section_that_is_cut_short_is_a_fault() {
    let mut client = Client::new();
    let mut body = Vec::new();
    create_entity(&mut body, 7, &[(70, position(1, 2))]);
    body.pop();
    assert_eq!(client.process(0, &section(1, body)), Err(ProtocolError::Truncated));
    assert!(!client.manager.has_entity(&7));
    assert_eq!(client.process(0, &[2, 2, 0, 7]), Err(ProtocolError::Truncated));
}

#[test]
fn a_kind_without_a_builder_is_a_fault() {
    let mut manifest: Manifest<Protocol> = Manifest::new();
    manifest.register_replica(KindBuilder::new(ProtocolKind::Position));
    let mut manager: ReplicaManager<Protocol> = ReplicaManager::new();
    let mut commands = CommandReceiver::new();
    let mut body = Vec::new();
    create_entity(&mut body, 7, &[(70, Protocol::KeyCommand(KeyCommand::new(true, true, true, true)))]);
    let bytes = section(1, body);
    let mut reader = PacketReader::new(&bytes);
    assert_eq!(
        manager.process_data(&manifest, &mut commands, 0, 0, &mut reader),
        Err(ProtocolError::UnknownKind)
    );
}

#[test]
fn assigning_a_pawn_copies_its_components() {
    let mut client = Client::new();
    let mut body = Vec::new();
    create_entity(&mut body, 7, &[(70, position(1, 2))]);
    write_keyed(&mut body, ReplicaActionType::AssignPawnEntity, 7);
    assert_eq!(client.process(0, &section(2, body)), Ok(()));
    assert!(client.manager.is_pawn(&7));
    let pawns = client.manager.get_pawn_components(&7);
    assert_eq!(pawns.len(), 1);
    assert!(pawns[0].equals(&position(1, 2)));
    let typed: Option<&Position> = client.manager.get_pawn_component_by_type::<Position>(&7);
    assert_eq!(*typed.unwrap().y.get(), 2);
    assert_eq!(client.events(), vec!["create 7 with 1", "add to 7", "assign 7"]);
    assert_eq!(client.commands.command_history_count(&7), 0);
    assert!(client.commands.command_history_iter(&7, false).is_some());
}

#[test]
fn assigning_an_unknown_entity_changes_nothing() {
    let mut client = Client::new();
    let mut body = Vec::new();
    write_keyed(&mut body, ReplicaActionType::AssignPawnEntity, 7);
    assert_eq!(client.process(0, &section(1, body)), Ok(()));
    assert!(!client.manager.is_pawn(&7));
    assert!(client.events().is_empty());
    assert!(client.commands.command_history_iter(&7, false).is_none());
}

#[test]
fn unassigning_a_pawn_drops_its_copies() {
    let mut client = Client::new();
    let mut body = Vec::new();
    create_entity(&mut body, 7, &[(70, position(1, 2))]);
    write_keyed(&mut body, ReplicaActionType::AssignPawnEntity, 7);
    write_keyed(&mut body, ReplicaActionType::UnassignPawnEntity, 7);
    write_keyed(&mut body, ReplicaActionType::UnassignPawnEntity, 9);
    assert_eq!(client.process(0, &section(4, body)), Ok(()));
    assert!(!client.manager.is_pawn(&7));
    assert!(client.manager.get_pawn_components(&7).is_empty());
    assert!(client.manager.has_component(&70));
    assert!(client.commands.command_history_iter(&7, false).is_none());
    assert_eq!(
        client.events(),
        vec!["create 7 with 1", "add to 7", "assign 7", "unassign 7", "unassign 9"]
    );
}

#[test]
fn a_component_added_to_a_pawn_gets_a_copy_at_once() {
    let mut client = Client::new();
    let mut body = Vec::new();
    create_entity(&mut body, 7, &[(70, position(1, 2))]);
    write_keyed(&mut body, ReplicaActionType::AssignPawnEntity, 7);
    write_add_component(&mut body, 7, 71, &Protocol::KeyCommand(KeyCommand::new(true, false, true, false)));
    assert_eq!(client.process(0, &section(3, body)), Ok(()));
    let pawns = client.manager.get_pawn_components(&7);
    assert_eq!(pawns.len(), 2);
    assert!(pawns[1].equals(&Protocol::KeyCommand(KeyCommand::new(true, false, true, false))));
}

#[test]
fn an_update_goes_to_the_replica_and_not_to_the_copy() {
    let mut client = Client::new();
    let mut body = Vec::new();
    create_entity(&mut body, 7, &[(70, position(1, 2))]);
    write_keyed(&mut body, ReplicaActionType::AssignPawnEntity, 7);
    update_x(&mut body, 70, 50);
    assert_eq!(client.process(10, &section(3, body)), Ok(()));
    assert!(client.manager.get_component(&70).unwrap().equals(&position(50, 2)));
    assert!(client.manager.get_pawn_components(&7)[0].equals(&position(1, 2)));
}

#[test]
fn every_component_of_a_pawn_equals_its_replica_after_a_reset() {
    let mut client = Client::new();
    let mut body = Vec::new();
    create_entity(&mut body, 7, &[(70, position(1, 2)), (71, position(3, 4))]);
    write_keyed(&mut body, ReplicaActionType::AssignPawnEntity, 7);
    update_x(&mut body, 70, 50);
    update_x(&mut body, 71, 60);
    assert_eq!(client.process(10, &section(4, body)), Ok(()));
    client.events();
    client.manager.pawn_reset_entity(&7);
    let replicas = client.manager.get_components(&7);
    let pawns = client.manager.get_pawn_components(&7);
    assert_eq!(pawns.len(), 2);
    assert!(pawns[0].equals(&replicas[0]));
    assert!(pawns[1].equals(&replicas[1]));
    assert!(pawns[0].equals(&position(50, 2)));
    assert_eq!(client.events(), vec!["reset 7"]);
}

#[test]
fn deleting_a_pawn_forgets_its_copies_and_its_history() {
    let mut client = Client::new();
    let mut body = Vec::new();
    create_entity(&mut body, 7, &[(70, position(1, 2))]);
    write_keyed(&mut body, ReplicaActionType::AssignPawnEntity, 7);
    write_keyed(&mut body, ReplicaActionType::DeleteEntity, 7);
    assert_eq!(client.process(0, &section(3, body)), Ok(()));
    assert!(!client.manager.is_pawn(&7));
    assert!(client.manager.get_pawn_components(&7).is_empty());
    assert!(client.commands.command_history_iter(&7, false).is_none());
}

#[test]
fn every_component_belongs_to_an_entity_that_exists() {
    let mut client = Client::new();
    let mut body = Vec::new();
    create_entity(&mut body, 1, &[(10, position(0, 0)), (11, position(0, 0))]);
    create_entity(&mut body, 2, &[(20, position(0, 0))]);
    write_add_component(&mut body, 2, 21, &position(0, 0));
    write_keyed(&mut body, ReplicaActionType::DeleteComponent, 10);
    write_keyed(&mut body, ReplicaActionType::DeleteEntity, 2);
    assert_eq!(client.process(0, &section(5, body)), Ok(()));
    for key in 0..30u16 {
        if client.manager.has_component(&key) {
            assert_eq!(key, 11);
        }
    }
    assert_eq!(client.manager.get_components(&1).len(), 1);
    assert!(client.manager.get_components(&2).is_empty());
}

#[test]
fn a_created_entity_is_announced_and_then_each_of_its_components_in_the_order_sent() {
    let mut client = Client::new();
    let mut body = Vec::new();
    let command = Protocol::KeyCommand(KeyCommand::new(true, false, false, true));
    create_entity(&mut body, 7, &[(71, command.copy()), (70, position(1, 2))]);
    assert_eq!(client.process(0, &section(1, body)), Ok(()));
    match client.manager.pop_incoming_message() {
        Some(ReplicaAction::CreateEntity(entity, replicas)) => {
            assert_eq!(entity, 7);
            assert_eq!(replicas.len(), 2);
            assert!(replicas[0].equals(&command));
            assert!(replicas[1].equals(&position(1, 2)));
        }
        _ => panic!("the entity is announced first"),
    }
    match client.manager.pop_incoming_message() {
        Some(ReplicaAction::AddComponent(entity, replica)) => {
            assert_eq!(entity, 7);
            assert!(replica.equals(&command));
        }
        _ => panic!("the first component is announced second"),
    }
    match client.manager.pop_incoming_message() {
        Some(ReplicaAction::AddComponent(entity, replica)) => {
            assert_eq!(entity, 7);
            assert!(replica.equals(&position(1, 2)));
        }
        _ => panic!("the second component is announced third"),
    }
    assert!(client.manager.pop_incoming_message().is_none());
}

#[test]
fn a_created_entity_without_components_is_announced_alone() {
    let mut client = Client::new();
    let mut body = Vec::new();
    create_entity(&mut body, 7, &[]);
    assert_eq!(client.process(0, &section(1, body)), Ok(()));
    assert_eq!(client.events(), vec!["create 7 with 0"]);
}
