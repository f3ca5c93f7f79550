use naia::action_writer::{write_component, write_keyed, write_update_component};
use naia::client::command_receiver::CommandReceiver;
use naia::client::replica_manager::ReplicaManager;
use naia::diff_mask::DiffMask;
use naia::manifest::{KindBuilder, Manifest};
use naia::packet_reader::PacketReader;
use naia::protocol::{KeyCommand, Position, Protocol, ProtocolKind};
use naia::protocol_type::ProtocolType;
use naia::replica_action_type::ReplicaActionType;

fn right() -> Protocol {
    Protocol::KeyCommand(KeyCommand::new(false, false, false, true))
}

fn up() -> Protocol {
    Protocol::KeyCommand(KeyCommand::new(true, false, false, false))
}

fn manifest() -> Manifest<Protocol> {
    let mut manifest = Manifest::new();
    manifest.register_replica(KindBuilder::new(ProtocolKind::Position));
    manifest.register_replica(KindBuilder::new(ProtocolKind::KeyCommand));
    manifest
}

fn history_ticks(receiver: &CommandReceiver<Protocol>, pawn: u16, reverse: bool) -> Option<Vec<u16>> {
    receiver
        .command_history_iter(&pawn, reverse)
        .map(|commands| commands.iter().map(|queued| queued.tick).collect())
}

fn ticks(receiver: &mut CommandReceiver<Protocol>, replay: bool) -> Vec<u16> {
    let mut out = Vec::new();
    loop {
        let next = if replay { receiver.pop_command_replay() } else { receiver.pop_command() };
        match next {
            Some((tick, _, _)) => out.push(tick),
            None => return out,
        }
    }
}

#[test]
fn queued_commands_come_out_in_order() {
    let mut receiver: CommandReceiver<Protocol> = CommandReceiver::new();
    receiver.queue_command(5, &1, &right());
    receiver.queue_command(6, &1, &up());
    let (tick, pawn, command) = receiver.pop_command().unwrap();
    assert_eq!((tick, pawn), (5, 1));
    assert!(command.equals(&right()));
    let (tick, pawn, command) = receiver.pop_command().unwrap();
    assert_eq!((tick, pawn), (6, 1));
    assert!(command.equals(&up()));
    assert!(receiver.pop_command().is_none());
    assert!(receiver.pop_command_replay().is_none());
}

#[test]
fn commands_are_kept_only_for_pawns_with_a_history() {
    let mut receiver: CommandReceiver<Protocol> = CommandReceiver::new();
    receiver.queue_command(5, &1, &right());
    assert_eq!(receiver.command_history_count(&1), 0);
    assert!(receiver.command_history_iter(&1, false).is_none());
    receiver.pawn_init(&1);
    receiver.queue_command(6, &1, &right());
    receiver.queue_command(7, &1, &up());
    assert_eq!(receiver.command_history_count(&1), 2);
    assert_eq!(history_ticks(&receiver, 1, false), Some(vec![6, 7]));
    assert_eq!(history_ticks(&receiver, 1, true), Some(vec![7, 6]));
    assert!(receiver.command_history_get(&1, 7).unwrap().equals(&up()));
    assert!(receiver.command_history_get(&1, 8).is_none());
    receiver.pawn_cleanup(&1);
    assert_eq!(receiver.command_history_count(&1), 0);
}

#[test]
fn the_history_keeps_64_ticks() {
    let mut receiver: CommandReceiver<Protocol> = CommandReceiver::new();
    receiver.pawn_init(&1);
    for tick in 0..100u16 {
        receiver.queue_command(tick, &1, &right());
    }
    assert_eq!(receiver.command_history_count(&1), 64);
    assert!(receiver.command_history_get(&1, 35).is_none());
    assert!(receiver.command_history_get(&1, 36).is_some());
}

#[test]
fn remove_history_until_cuts_the_history_up_to_the_tick() {
    let mut receiver: CommandReceiver<Protocol> = CommandReceiver::new();
    receiver.pawn_init(&1);
    for tick in 10..15u16 {
        receiver.queue_command(tick, &1, &right());
    }
    receiver.remove_history_until(12, &1);
    assert_eq!(history_ticks(&receiver, 1, false), Some(vec![13, 14]));
    receiver.remove_history_until(12, &2);
}

#[test]
fn a_replay_runs_the_commands_from_the_tick_on() {
    let mut receiver: CommandReceiver<Protocol> = CommandReceiver::new();
    let mut manager: ReplicaManager<Protocol> = ReplicaManager::new();
    receiver.pawn_init(&1);
    for tick in 10..15u16 {
        receiver.queue_command(tick, &1, &right());
    }
    receiver.replay_commands(12, &1);
    receiver.process_command_replay(&mut manager);
    assert_eq!(ticks(&mut receiver, false), Vec::<u16>::new());
    assert_eq!(ticks(&mut receiver, true), vec![12, 13, 14]);
    // the triggers are forgotten
    receiver.process_command_replay(&mut manager);
    assert_eq!(ticks(&mut receiver, true), Vec::<u16>::new());
}

#[test]
fn of_several_replays_asked_for_a_pawn_the_earliest_tick_is_used() {
    let mut receiver: CommandReceiver<Protocol> = CommandReceiver::new();
    let mut manager: ReplicaManager<Protocol> = ReplicaManager::new();
    receiver.pawn_init(&1);
    for tick in 10..15u16 {
        receiver.queue_command(tick, &1, &right());
    }
    receiver.replay_commands(13, &1);
    receiver.replay_commands(11, &1);
    receiver.replay_commands(12, &1);
    receiver.process_command_replay(&mut manager);
    assert_eq!(ticks(&mut receiver, true), vec![11, 12, 13, 14]);
}

#[test]
fn a_replay_from_after_the_newest_command_runs_nothing() {
    let mut receiver: CommandReceiver<Protocol> = CommandReceiver::new();
    let mut manager: ReplicaManager<Protocol> = ReplicaManager::new();
    receiver.pawn_init(&1);
    receiver.queue_command(10, &1, &right());
    receiver.queue_command(11, &1, &right());
    receiver.replay_commands(12, &1);
    receiver.process_command_replay(&mut manager);
    assert_eq!(ticks(&mut receiver, true), Vec::<u16>::new());
    assert_eq!(ticks(&mut receiver, false), Vec::<u16>::new());
}

#[test]
fn a_replay_works_across_the_wrap_of_the_ticks() {
    let mut receiver: CommandReceiver<Protocol> = CommandReceiver::new();
    let mut manager: ReplicaManager<Protocol> = ReplicaManager::new();
    receiver.pawn_init(&1);
    for tick in [65534u16, 65535, 0, 1] {
        receiver.queue_command(tick, &1, &right());
    }
    receiver.replay_commands(65535, &1);
    receiver.process_command_replay(&mut manager);
    assert_eq!(ticks(&mut receiver, true), vec![65535, 0, 1]);
}

fn predicted(manager: &ReplicaManager<Protocol>) -> (i16, i16) {
    let position: &Position = manager.get_pawn_component_by_type::<Position>(&1).unwrap();
    (*position.x.get(), *position.y.get())
}

// the host program of this test moves a pawn one step to the right for each command
fn step_right(manager: &mut ReplicaManager<Protocol>) {
    let (x, y) = predicted(manager);
    assert!(manager.update_pawn_component(&1, &Protocol::Position(Position::new(x + 1, y))));
}

#[test]
fn an_update_rolls_the_pawn_back_and_replays_the_later_commands() {
    let manifest = manifest();
    let mut manager: ReplicaManager<Protocol> = ReplicaManager::new();
    let mut receiver: CommandReceiver<Protocol> = CommandReceiver::new();

    // the client owns pawn 1 at (0, 0)
    let mut body = vec![2u8];
    write_keyed(&mut body, ReplicaActionType::CreateEntity, 1);
    body.push(1);
    write_component(&mut body, 10, &Protocol::Position(Position::new(0, 0)));
    write_keyed(&mut body, ReplicaActionType::AssignPawnEntity, 1);
    let mut reader = PacketReader::new(&body);
    manager.process_data(&manifest, &mut receiver, 99, 0, &mut reader).unwrap();
    assert_eq!(predicted(&manager), (0, 0));

    // it queues commands at ticks 100..=105, each moving one step to the right
    let t = 100u16;
    for tick in t..=t + 5 {
        receiver.queue_command(tick, &1, &right());
    }
    while let Some((_, pawn, _)) = receiver.pop_command() {
        assert_eq!(pawn, 1);
        step_right(&mut manager);
    }
    assert_eq!(predicted(&manager), (6, 0));

    // the server says: at the start of tick t + 2 the pawn stood at (0, 0)
    let mut mask = DiffMask::new(1);
    mask.set_bit(0);
    mask.set_bit(1);
    let mut body = vec![1u8];
    write_update_component(&mut body, 10, &mask, &Protocol::Position(Position::new(0, 0)));
    let mut reader = PacketReader::new(&body);
    manager.process_data(&manifest, &mut receiver, t + 1, 1, &mut reader).unwrap();

    // the predictor mirrors the pawn to (0, 0) and replays t + 2 ..= t + 5
    receiver.process_command_replay(&mut manager);
    assert_eq!(predicted(&manager), (0, 0));
    let mut replayed = Vec::new();
    while let Some((tick, pawn, command)) = receiver.pop_command_replay() {
        assert_eq!(pawn, 1);
        assert!(command.equals(&right()));
        step_right(&mut manager);
        replayed.push(tick);
    }
    assert_eq!(replayed, vec![102, 103, 104, 105]);
    assert_eq!(predicted(&manager), (4, 0));
    assert_eq!(history_ticks(&receiver, 1, false), Some(vec![102, 103, 104, 105]));
}

#[test]
fn a_prediction_changes_the_copy_and_not_the_replica() {
    let manifest = manifest();
    let mut manager: ReplicaManager<Protocol> = ReplicaManager::new();
    let mut receiver: CommandReceiver<Protocol> = CommandReceiver::new();
    let mut body = vec![2u8];
    write_keyed(&mut body, ReplicaActionType::CreateEntity, 1);
    body.push(1);
    write_component(&mut body, 10, &Protocol::Position(Position::new(3, 4)));
    write_keyed(&mut body, ReplicaActionType::AssignPawnEntity, 1);
    let mut reader = PacketReader::new(&body);
    manager.process_data(&manifest, &mut receiver, 0, 0, &mut reader).unwrap();
    assert!(manager.update_pawn_component(&1, &Protocol::Position(Position::new(30, 40))));
    assert_eq!(predicted(&manager), (30, 40));
    assert!(manager.get_component(&10).unwrap().equals(&Protocol::Position(Position::new(3, 4))));
    assert!(!manager.update_pawn_component(&1, &up()));
    assert!(!manager.update_pawn_component(&2, &Protocol::Position(Position::new(0, 0))));
}

#[test]
fn the_first_command_of_a_pawn_is_stored_whatever_its_tick() {
    let mut receiver: CommandReceiver<Protocol> = CommandReceiver::new();
    let mut manager: ReplicaManager<Protocol> = ReplicaManager::new();
    receiver.pawn_init(&1);
    assert_eq!(receiver.command_history_count(&1), 0);
    receiver.queue_command(40000, &1, &right());
    assert_eq!(receiver.command_history_count(&1), 1);
    assert!(receiver.command_history_get(&1, 40000).unwrap().equals(&right()));
    receiver.queue_command(40001, &1, &up());
    // 64 ticks behind the newest: not stored
    receiver.queue_command(39937, &1, &up());
    assert_eq!(receiver.command_history_count(&1), 2);
    assert!(receiver.command_history_get(&1, 39937).is_none());
    receiver.replay_commands(40000, &1);
    receiver.process_command_replay(&mut manager);
    assert_eq!(ticks(&mut receiver, true), vec![40000, 40001]);
}

#[test]
fn a_replay_of_a_pawn_without_commands_runs_nothing() {
    let mut receiver: CommandReceiver<Protocol> = CommandReceiver::new();
    let mut manager: ReplicaManager<Protocol> = ReplicaManager::new();
    receiver.pawn_init(&1);
    receiver.replay_commands(40000, &1);
    receiver.process_command_replay(&mut manager);
    assert!(ticks(&mut receiver, true).is_empty());
    assert_eq!(receiver.command_history_count(&1), 0);
}

#[test]
fn a_pawn_that_is_set_up_again_starts_with_no_head() {
    let mut receiver: CommandReceiver<Protocol> = CommandReceiver::new();
    receiver.pawn_init(&1);
    receiver.queue_command(10, &1, &right());
    receiver.pawn_cleanup(&1);
    receiver.pawn_init(&1);
    receiver.queue_command(50000, &1, &up());
    assert_eq!(receiver.command_history_count(&1), 1);
    assert!(receiver.command_history_get(&1, 50000).unwrap().equals(&up()));
}

#[test]
fn the_history_hands_out_each_command_with_its_tick() {
    let mut receiver: CommandReceiver<Protocol> = CommandReceiver::new();
    receiver.pawn_init(&4);
    receiver.queue_command(20, &4, &right());
    receiver.queue_command(22, &4, &up());
    let commands = receiver.command_history_iter(&4, false).unwrap();
    assert_eq!(commands.len(), 2);
    assert_eq!((commands[0].tick, commands[0].pawn), (20, 4));
    assert!(commands[0].command.equals(&right()));
    assert_eq!((commands[1].tick, commands[1].pawn), (22, 4));
    assert!(commands[1].command.equals(&up()));
    let backwards = receiver.command_history_iter(&4, true).unwrap();
    assert_eq!(backwards.len(), 2);
    assert_eq!(backwards[0].tick, 22);
    assert!(backwards[0].command.equals(&up()));
    assert_eq!(backwards[1].tick, 20);
    assert!(backwards[1].command.equals(&right()));
}

#[test]
fn of_two_replays_asked_for_one_pawn_one_trigger_is_kept() {
    let mut receiver: CommandReceiver<Protocol> = CommandReceiver::new();
    let mut manager: ReplicaManager<Protocol> = ReplicaManager::new();
    receiver.pawn_init(&1);
    receiver.pawn_init(&2);
    for tick in 10..14u16 {
        receiver.queue_command(tick, &1, &right());
        receiver.queue_command(tick, &2, &up());
    }
    receiver.replay_commands(12, &1);
    receiver.replay_commands(11, &2);
    receiver.replay_commands(13, &1);
    receiver.process_command_replay(&mut manager);
    // one reset for each pawn, not one for each request
    let mut resets = Vec::new();
    while let Some(action) = manager.pop_incoming_message() {
        match action {
            naia::client::replica_action::ReplicaAction::ResetPawnEntity(pawn) => resets.push(pawn),
            _ => panic!("only resets are expected"),
        }
    }
    assert_eq!(resets, vec![1, 2]);
    // the trigger that is served last decides what is run again
    assert_eq!(ticks(&mut receiver, true), vec![11, 12, 13]);
}
