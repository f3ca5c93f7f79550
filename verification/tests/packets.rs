use naia::packet_type::{
    bare_packet, data_packet, handshake_packet, numbered_packet, read_number, read_timestamp,
    PacketType,
};
use naia::server::packet_watch::{PacketWatch, Watched};

#[test]
fn every_packet_type_has_its_code() {
    assert_eq!(PacketType::Data.to_u8(), 1);
    assert_eq!(PacketType::Heartbeat.to_u8(), 2);
    assert_eq!(PacketType::ClientHandshake.to_u8(), 3);
    assert_eq!(PacketType::ServerHandshake.to_u8(), 4);
    assert_eq!(PacketType::ServerReject.to_u8(), 5);
    assert_eq!(PacketType::Ack.to_u8(), 6);
    assert_eq!(PacketType::Unknown.to_u8(), 255);
}

#[test]
fn a_packet_is_what_its_first_byte_says() {
    assert_eq!(PacketType::get_from_packet(&[1, 9, 9]), PacketType::Data);
    assert_eq!(PacketType::get_from_packet(&[2]), PacketType::Heartbeat);
    assert_eq!(PacketType::get_from_packet(&[3, 0]), PacketType::ClientHandshake);
    assert_eq!(PacketType::get_from_packet(&[4]), PacketType::ServerHandshake);
    assert_eq!(PacketType::get_from_packet(&[5]), PacketType::ServerReject);
    assert_eq!(PacketType::get_from_packet(&[6, 0, 1]), PacketType::Ack);
    assert_eq!(PacketType::get_from_packet(&[]), PacketType::Unknown);
    assert_eq!(PacketType::get_from_packet(&[0]), PacketType::Unknown);
    assert_eq!(PacketType::get_from_packet(&[7]), PacketType::Unknown);
    assert_eq!(PacketType::get_from_packet(&[255]), PacketType::Unknown);
}

#[test]
fn packets_are_a_code_and_what_the_code_carries() {
    assert_eq!(bare_packet(PacketType::Heartbeat), vec![2]);
    assert_eq!(bare_packet(PacketType::ServerReject), vec![5]);
    assert_eq!(numbered_packet(PacketType::Ack, 513), vec![6, 2, 1]);
    assert_eq!(numbered_packet(PacketType::Ack, 65535), vec![6, 255, 255]);
    assert_eq!(data_packet(0x0102, &[7, 8]), vec![1, 1, 2, 7, 8]);
    assert_eq!(data_packet(0, &[]), vec![1, 0, 0]);
    assert_eq!(
        handshake_packet(0x0102_0304_0506_0708),
        vec![3, 1, 2, 3, 4, 5, 6, 7, 8]
    );
    assert_eq!(handshake_packet(0), vec![3, 0, 0, 0, 0, 0, 0, 0, 0]);
    assert_eq!(handshake_packet(u64::MAX), vec![3, 255, 255, 255, 255, 255, 255, 255, 255]);
}

#[test]
fn the_number_and_the_timestamp_of_a_packet_are_read_back() {
    assert_eq!(read_number(&numbered_packet(PacketType::Ack, 513)), Some(513));
    assert_eq!(read_number(&data_packet(40000, &[1, 2, 3])), Some(40000));
    assert_eq!(read_number(&[6, 2]), None);
    assert_eq!(read_number(&[]), None);
    for timestamp in [0u64, 1, 255, 256, 65536, 0x0102_0304_0506_0708, u64::MAX] {
        assert_eq!(read_timestamp(&handshake_packet(timestamp)), Some(timestamp));
    }
    assert_eq!(read_timestamp(&[3, 0, 0, 0, 0, 0, 0, 0]), None);
    assert_eq!(read_timestamp(&[3]), None);
}

#[test]
fn a_watch_gives_up_what_has_been_under_way_too_long() {
    let mut watch = PacketWatch::new();
    assert_eq!(watch.len(), 0);
    watch.sent(0, 10, 100);
    watch.sent(1, 10, 150);
    watch.sent(0, 11, 200);
    assert_eq!(watch.len(), 3);
    // nothing is overdue yet
    assert!(watch.take_overdue(250, 500).is_empty());
    assert_eq!(watch.len(), 3);
    // a time before the packets were sent gives up nothing
    assert!(watch.take_overdue(50, 0).is_empty());
    // at 650 the first two have been under way for 500 or longer
    let lost = watch.take_overdue(650, 500);
    assert_eq!(
        lost,
        vec![
            Watched { user: 0, packet_index: 10, sent_at: 100 },
            Watched { user: 1, packet_index: 10, sent_at: 150 },
        ]
    );
    assert_eq!(watch.len(), 1);
    let lost = watch.take_overdue(700, 500);
    assert_eq!(lost, vec![Watched { user: 0, packet_index: 11, sent_at: 200 }]);
    assert_eq!(watch.len(), 0);
}

#[test]
fn a_confirmed_packet_is_watched_no_more() {
    let mut watch = PacketWatch::new();
    watch.sent(0, 10, 100);
    watch.sent(1, 10, 100);
    watch.sent(0, 11, 100);
    assert!(watch.confirmed(0, 10));
    assert!(!watch.confirmed(0, 10));
    assert!(!watch.confirmed(2, 11));
    assert_eq!(watch.len(), 2);
    let lost = watch.take_overdue(100, 0);
    assert_eq!(
        lost,
        vec![
            Watched { user: 1, packet_index: 10, sent_at: 100 },
            Watched { user: 0, packet_index: 11, sent_at: 100 },
        ]
    );
}
