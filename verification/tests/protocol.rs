use naia::behavior::process_command;
use naia::diff_mask::DiffMask;
use naia::error::ProtocolError;
use naia::manager_type::ManagerType;
use naia::manifest::{KindBuilder, Manifest, ReplicaBuilder};
use naia::messages::{Auth, StringMessage};
use naia::packet_reader::PacketReader;
use naia::protocol::{KeyCommand, Position, Protocol, ProtocolKind};
use naia::protocol_type::{kind_of, ProtocolKindType, ProtocolType};
use naia::replica_action_type::ReplicaActionType;
use naia::replicate::{EventClone, Replicate, ReplicateEq};
use naia::ticker::Ticker;

#[test]
fn kinds_have_stable_numbers() {
    assert_eq!(ProtocolKind::Position.to_u16(), 0);
    assert_eq!(ProtocolKind::KeyCommand.to_u16(), 1);
    assert_eq!(ProtocolKind::from_u16(0), Some(ProtocolKind::Position));
    assert_eq!(ProtocolKind::from_u16(1), Some(ProtocolKind::KeyCommand));
    assert_eq!(ProtocolKind::Auth.to_u16(), 2);
    assert_eq!(ProtocolKind::StringMessage.to_u16(), 3);
    assert_eq!(ProtocolKind::from_u16(2), Some(ProtocolKind::Auth));
    assert_eq!(ProtocolKind::from_u16(3), Some(ProtocolKind::StringMessage));
    assert_eq!(ProtocolKind::from_u16(4), None);
    assert_eq!(kind_of::<Protocol, Position>(), ProtocolKind::Position);
    assert_eq!(kind_of::<Protocol, KeyCommand>(), ProtocolKind::KeyCommand);
    assert_eq!(Protocol::Position(Position::new(0, 0)).kind(), ProtocolKind::Position);
}

#[test]
fn a_position_is_written_as_two_coordinates() {
    let position = Position::new(258, -2);
    let mut out = Vec::new();
    Position::write(&position, &mut out);
    assert_eq!(out, vec![1, 2, 0xff, 0xfe]);
    assert_eq!(Position::get_diff_mask_size(&position), 1);
}

#[test]
fn write_full_then_read_full_is_the_identity() {
    let position = Position::new(-300, 12345);
    let mut out = Vec::new();
    Position::write(&position, &mut out);
    out.push(99);
    let mut reader = PacketReader::new(&out);
    let read = Position::read_full(&mut reader, 0).unwrap();
    assert!(Position::equals(&read, &position));
    assert_eq!(*read.x.get(), -300);
    assert_eq!(*read.y.get(), 12345);
    assert_eq!(reader.read_u8(), Ok(99));

    let command = KeyCommand::new(true, false, false, true);
    let mut out = Vec::new();
    KeyCommand::write(&command, &mut out);
    assert_eq!(out, vec![1, 0, 0, 1]);
    let mut reader = PacketReader::new(&out);
    let read = KeyCommand::read_full(&mut reader, 0).unwrap();
    assert!(KeyCommand::equals(&read, &command));
    assert!(!reader.has_more());
}

#[test]
fn a_partial_write_carries_the_masked_properties_only() {
    let position = Position::new(7, 9);
    let mut mask = DiffMask::new(1);
    mask.set_bit(1);
    let mut out = Vec::new();
    Position::write_partial(&position, &mask, &mut out);
    assert_eq!(out, vec![0, 9]);

    let command = KeyCommand::new(true, true, false, true);
    let mut mask = DiffMask::new(1);
    mask.set_bit(0);
    mask.set_bit(2);
    let mut out = Vec::new();
    KeyCommand::write_partial(&command, &mask, &mut out);
    assert_eq!(out, vec![1, 0]);
}

#[test]
fn a_partial_read_changes_the_masked_properties_only() {
    let source = Position::new(7, 9);
    let mut mask = DiffMask::new(1);
    mask.set_bit(0);
    let mut out = Vec::new();
    Position::write_partial(&source, &mask, &mut out);
    let mut target = Position::new(100, 200);
    let mut reader = PacketReader::new(&out);
    Position::read_partial(&mut target, &mask, &mut reader, 0).unwrap();
    assert_eq!(*target.x.get(), 7);
    assert_eq!(*target.y.get(), 200);
    assert!(!reader.has_more());

    let source = KeyCommand::new(true, true, true, true);
    let mut mask = DiffMask::new(1);
    mask.set_bit(1);
    mask.set_bit(3);
    let mut out = Vec::new();
    KeyCommand::write_partial(&source, &mask, &mut out);
    let mut target = KeyCommand::new(false, false, false, false);
    let mut reader = PacketReader::new(&out);
    KeyCommand::read_partial(&mut target, &mask, &mut reader, 0).unwrap();
    assert!(KeyCommand::equals(&target, &KeyCommand::new(false, true, false, true)));
}

#[test]
fn a_partial_read_that_fails_leaves_the_replica_as_it_was() {
    let mut mask = DiffMask::new(1);
    mask.set_bit(0);
    mask.set_bit(1);
    let bytes = [0u8, 5, 0];
    let mut target = Position::new(100, 200);
    let mut reader = PacketReader::new(&bytes);
    assert_eq!(
        Position::read_partial(&mut target, &mask, &mut reader, 0),
        Err(ProtocolError::Truncated)
    );
    assert_eq!(*target.x.get(), 100);
    assert_eq!(*target.y.get(), 200);
}

#[test]
fn a_key_that_is_neither_0_nor_1_is_a_fault() {
    let bytes = [1u8, 0, 2, 0];
    let mut reader = PacketReader::new(&bytes);
    assert!(matches!(
        KeyCommand::read_full(&mut reader, 0),
        Err(ProtocolError::InvalidValue)
    ));
    let bytes = [1u8, 0];
    let mut reader = PacketReader::new(&bytes);
    assert!(matches!(KeyCommand::read_full(&mut reader, 0), Err(ProtocolError::Truncated)));
}

#[test]
fn mirror_makes_the_two_equal() {
    let mut a = Position::new(1, 2);
    let b = Position::new(3, 4);
    assert!(!Position::equals(&a, &b));
    Position::mirror(&mut a, &b);
    assert!(Position::equals(&a, &b));

    let mut a = Protocol::Position(Position::new(1, 2));
    let b = Protocol::Position(Position::new(-5, 6));
    a.mirror(&b);
    assert!(a.equals(&b));
}

#[test]
fn mirror_across_kinds_changes_nothing() {
    let mut a = Protocol::Position(Position::new(1, 2));
    let b = Protocol::KeyCommand(KeyCommand::new(true, true, true, true));
    a.mirror(&b);
    assert!(a.equals(&Protocol::Position(Position::new(1, 2))));
    assert!(!a.equals(&b));
}

#[test]
fn diff_marks_the_properties_that_differ() {
    let a = Position::new(1, 2);
    let b = Position::new(1, 5);
    let mask = Position::diff(&a, &b);
    assert_eq!(mask.byte_number(), 1);
    assert!(!mask.get_bit(0));
    assert!(mask.get_bit(1));
    assert!(Position::diff(&a, &a).is_clear());

    let a = KeyCommand::new(true, false, true, false);
    let b = KeyCommand::new(false, false, true, true);
    let mask = KeyCommand::diff(&a, &b);
    assert_eq!(mask.get_byte(0), 0b0000_1001);

    let mixed = Protocol::Position(Position::new(0, 0))
        .diff(&Protocol::KeyCommand(KeyCommand::new(true, true, true, true)));
    assert!(mixed.is_clear());
}

#[test]
fn the_protocol_writes_and_reads_what_its_replicas_do() {
    let value = Protocol::Position(Position::new(10, 20));
    let mut out = Vec::new();
    value.write(&mut out);
    assert_eq!(out, vec![0, 10, 0, 20]);
    let mut reader = PacketReader::new(&out);
    let read = Protocol::read_full(0, &mut reader, 0).unwrap();
    assert!(read.equals(&value));
    let mut reader = PacketReader::new(&out);
    assert!(matches!(Protocol::read_full(7, &mut reader, 0), Err(ProtocolError::UnknownKind)));
    let copy = value.copy();
    assert!(copy.equals(&value));
    assert_eq!(value.get_diff_mask_size(), 1);
}

#[test]
fn typed_replicas_are_found_inside_the_protocol() {
    let value = Protocol::Position(Position::new(10, 20));
    let position: Option<&Position> = <Position as Replicate<Protocol>>::cast_ref(&value);
    assert_eq!(*position.unwrap().y.get(), 20);
    let command: Option<&KeyCommand> = <KeyCommand as Replicate<Protocol>>::cast_ref(&value);
    assert!(command.is_none());
    let position = Position::new(3, 4);
    let typed = <Position as Replicate<Protocol>>::get_typed_copy(&position);
    assert!(typed.equals(&Protocol::Position(Position::new(3, 4))));
    let boxed = <Position as EventClone<Protocol>>::clone_box(&position);
    assert!(boxed.equals(&typed));
    let mut other = Position::new(0, 0);
    <Position as ReplicateEq<Protocol>>::mirror(&mut other, &position);
    assert!(<Position as ReplicateEq<Protocol>>::equals(&other, &position));
}

#[test]
fn the_manifest_builds_registered_kinds_only() {
    let mut manifest: Manifest<Protocol> = Manifest::new();
    assert!(!manifest.has_kind(0));
    let builder = KindBuilder::new(ProtocolKind::Position);
    assert_eq!(builder.get_kind(), ProtocolKind::Position);
    manifest.register_replica(builder);
    assert!(manifest.has_kind(0));
    assert!(!manifest.has_kind(1));
    let bytes = [0u8, 1, 0, 2];
    let mut reader = PacketReader::new(&bytes);
    let built = manifest.create_replica(0, &mut reader, 0).unwrap();
    assert!(built.equals(&Protocol::Position(Position::new(1, 2))));
    let mut reader = PacketReader::new(&bytes);
    assert!(matches!(
        manifest.create_replica(1, &mut reader, 0),
        Err(ProtocolError::UnknownKind)
    ));
    assert_eq!(reader.get_cursor(), 0);
}

#[test]
fn manager_codes_are_1_2_3() {
    assert_eq!(ManagerType::from(1), ManagerType::Message);
    assert_eq!(ManagerType::from(2), ManagerType::Entity);
    assert_eq!(ManagerType::from(3), ManagerType::Command);
    assert_eq!(ManagerType::from(0), ManagerType::Unknown);
    assert_eq!(ManagerType::from(255), ManagerType::Unknown);
    assert_eq!(ManagerType::Message.to_u8(), 1);
    assert_eq!(ManagerType::Entity.to_u8(), 2);
    assert_eq!(ManagerType::Command.to_u8(), 3);
    assert_eq!(ManagerType::Unknown.to_u8(), 255);
}

#[test]
fn action_codes_are_1_to_7() {
    assert_eq!(ReplicaActionType::from_u8(1), ReplicaActionType::CreateEntity);
    assert_eq!(ReplicaActionType::from_u8(2), ReplicaActionType::DeleteEntity);
    assert_eq!(ReplicaActionType::from_u8(3), ReplicaActionType::AddComponent);
    assert_eq!(ReplicaActionType::from_u8(4), ReplicaActionType::DeleteComponent);
    assert_eq!(ReplicaActionType::from_u8(5), ReplicaActionType::UpdateComponent);
    assert_eq!(ReplicaActionType::from_u8(6), ReplicaActionType::AssignPawnEntity);
    assert_eq!(ReplicaActionType::from_u8(7), ReplicaActionType::UnassignPawnEntity);
    assert_eq!(ReplicaActionType::from_u8(0), ReplicaActionType::Unknown);
    assert_eq!(ReplicaActionType::from_u8(8), ReplicaActionType::Unknown);
    assert_eq!(ReplicaActionType::UpdateComponent.to_u8(), 5);
}

#[test]
fn the_ticker_remembers_a_tick_until_it_is_finished() {
    let mut ticker = Ticker::new();
    assert!(!ticker.has_ticked());
    ticker.tick_start();
    assert!(ticker.has_ticked());
    ticker.tick_finish();
    assert!(!ticker.has_ticked());
}

#[test]
fn a_command_moves_a_position_by_the_speed() {
    let mut position = Position::new(0, 0);
    process_command(&KeyCommand::new(true, false, false, false), &mut position);
    assert_eq!((*position.x.get(), *position.y.get()), (0, -8));
    process_command(&KeyCommand::new(false, true, false, false), &mut position);
    assert_eq!((*position.x.get(), *position.y.get()), (0, 0));
    process_command(&KeyCommand::new(false, false, true, false), &mut position);
    assert_eq!((*position.x.get(), *position.y.get()), (-8, 0));
    process_command(&KeyCommand::new(false, false, false, true), &mut position);
    assert_eq!((*position.x.get(), *position.y.get()), (0, 0));
    process_command(&KeyCommand::new(false, true, false, true), &mut position);
    assert_eq!((*position.x.get(), *position.y.get()), (8, 8));
    process_command(&KeyCommand::new(false, false, false, false), &mut position);
    assert_eq!((*position.x.get(), *position.y.get()), (8, 8));
}

#[test]
fn of_two_opposite_keys_the_second_wins() {
    let mut position = Position::new(100, 100);
    process_command(&KeyCommand::new(true, true, true, true), &mut position);
    assert_eq!((*position.x.get(), *position.y.get()), (108, 108));
}

#[test]
fn a_command_wraps_at_the_ends_of_the_range() {
    let mut position = Position::new(32767, -32768);
    process_command(&KeyCommand::new(true, false, false, true), &mut position);
    assert_eq!((*position.x.get(), *position.y.get()), (-32761, 32760));
}

#[test]
fn a_text_is_written_as_its_length_and_its_bytes() {
    let message = StringMessage::new(b"hello".to_vec());
    let mut out = Vec::new();
    StringMessage::write(&message, &mut out);
    assert_eq!(out, vec![0, 5, 104, 101, 108, 108, 111]);
    let mut reader = PacketReader::new(&out);
    let read = StringMessage::read_full(&mut reader, 0).unwrap();
    assert!(StringMessage::equals(&read, &message));
    assert_eq!(read.contents.get(), &b"hello".to_vec());
    assert!(!reader.has_more());

    let empty = StringMessage::new(Vec::new());
    let mut out = Vec::new();
    StringMessage::write(&empty, &mut out);
    assert_eq!(out, vec![0, 0]);
}

#[test]
fn a_text_that_is_cut_short_is_a_fault_and_consumes_nothing() {
    let bytes = [0u8, 5, 104, 101];
    let mut reader = PacketReader::new(&bytes);
    assert!(matches!(StringMessage::read_full(&mut reader, 0), Err(ProtocolError::Truncated)));
    assert_eq!(reader.get_cursor(), 0);
    let bytes = [0u8];
    let mut reader = PacketReader::new(&bytes);
    assert!(matches!(StringMessage::read_full(&mut reader, 0), Err(ProtocolError::Truncated)));
}

#[test]
fn a_text_property_carries_at_most_65535_bytes() {
    let long = StringMessage::new(vec![7u8; 70000]);
    let mut out = Vec::new();
    StringMessage::write(&long, &mut out);
    assert_eq!(out.len(), 2 + 65535);
    assert_eq!(&out[..2], &[255, 255]);
    let mut reader = PacketReader::new(&out);
    let read = StringMessage::read_full(&mut reader, 0).unwrap();
    assert_eq!(read.contents.get().len(), 65535);
    // what is beyond the limit is no part of the property
    assert!(StringMessage::equals(&read, &long));
    assert!(StringMessage::diff(&read, &long).is_clear());
}

#[test]
fn a_request_to_be_let_in_carries_a_name_and_a_password() {
    let auth = Auth::new(b"bob".to_vec(), b"x".to_vec());
    let mut out = Vec::new();
    Auth::write(&auth, &mut out);
    assert_eq!(out, vec![0, 3, 98, 111, 98, 0, 1, 120]);
    let mut reader = PacketReader::new(&out);
    let read = Auth::read_full(&mut reader, 0).unwrap();
    assert!(Auth::equals(&read, &auth));
    assert!(!Auth::equals(&read, &Auth::new(b"bob".to_vec(), b"y".to_vec())));

    let other = Auth::new(b"bob".to_vec(), b"secret".to_vec());
    let mask = Auth::diff(&auth, &other);
    assert!(!mask.get_bit(0));
    assert!(mask.get_bit(1));
    let mut out = Vec::new();
    Auth::write_partial(&other, &mask, &mut out);
    assert_eq!(out, vec![0, 6, 115, 101, 99, 114, 101, 116]);
    let mut target = Auth::new(b"bob".to_vec(), b"x".to_vec());
    let mut reader = PacketReader::new(&out);
    Auth::read_partial(&mut target, &mask, &mut reader, 0).unwrap();
    assert!(Auth::equals(&target, &other));

    let mut mirrored = Auth::new(Vec::new(), Vec::new());
    Auth::mirror(&mut mirrored, &auth);
    assert!(Auth::equals(&mirrored, &auth));
    assert!(Auth::equals(&auth.duplicate(), &auth));
}

#[test]
fn a_partial_read_of_texts_that_fails_changes_nothing() {
    let mut mask = DiffMask::new(1);
    mask.set_bit(0);
    mask.set_bit(1);
    // the name is whole, the password is cut short
    let bytes = [0u8, 1, 97, 0, 4, 98];
    let mut target = Auth::new(b"bob".to_vec(), b"x".to_vec());
    let mut reader = PacketReader::new(&bytes);
    assert_eq!(
        Auth::read_partial(&mut target, &mask, &mut reader, 0),
        Err(ProtocolError::Truncated)
    );
    assert!(Auth::equals(&target, &Auth::new(b"bob".to_vec(), b"x".to_vec())));
}

#[test]
fn the_protocol_holds_messages_too() {
    let value = Protocol::Auth(Auth::new(b"a".to_vec(), b"b".to_vec()));
    assert_eq!(value.kind(), ProtocolKind::Auth);
    let mut out = Vec::new();
    value.write(&mut out);
    let mut reader = PacketReader::new(&out);
    let read = Protocol::read_full(2, &mut reader, 0).unwrap();
    assert!(read.equals(&value));
    assert!(!read.equals(&Protocol::StringMessage(StringMessage::new(b"a".to_vec()))));
    let text = Protocol::StringMessage(StringMessage::new(b"line".to_vec()));
    assert!(text.copy().equals(&text));
    let typed: Option<&StringMessage> = <StringMessage as Replicate<Protocol>>::cast_ref(&text);
    assert_eq!(typed.unwrap().contents.get(), &b"line".to_vec());
    assert!(<Auth as Replicate<Protocol>>::cast_ref(&text).is_none());
}
