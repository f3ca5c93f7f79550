use naia::error::ProtocolError;
use naia::packet_reader::{write_bytes, write_i16, write_u16, write_u8, PacketReader};

#[test]
fn integers_are_read_most_significant_byte_first() {
    let bytes = [7u8, 0x12, 0x34, 0xff, 0xfe];
    let mut reader = PacketReader::new(&bytes);
    assert!(reader.has_more());
    assert_eq!(reader.read_u8(), Ok(7));
    assert_eq!(reader.read_u16(), Ok(0x1234));
    assert_eq!(reader.get_cursor(), 3);
    assert_eq!(reader.remaining_len(), 2);
    assert_eq!(reader.read_i16(), Ok(-2));
    assert!(!reader.has_more());
}

#[test]
fn reading_past_the_end_is_a_fault_and_consumes_nothing() {
    let bytes = [1u8];
    let mut reader = PacketReader::new(&bytes);
    assert_eq!(reader.read_u16(), Err(ProtocolError::Truncated));
    assert_eq!(reader.read_i16(), Err(ProtocolError::Truncated));
    assert_eq!(reader.read_bytes(2), Err(ProtocolError::Truncated));
    assert_eq!(reader.get_cursor(), 0);
    assert_eq!(reader.read_u8(), Ok(1));
    assert_eq!(reader.read_u8(), Err(ProtocolError::Truncated));
}

#[test]
fn read_bytes_takes_a_run_of_bytes() {
    let bytes = [1u8, 2, 3, 4];
    let mut reader = PacketReader::new(&bytes);
    assert_eq!(reader.read_bytes(3), Ok(vec![1, 2, 3]));
    assert_eq!(reader.read_bytes(0), Ok(vec![]));
    assert_eq!(reader.read_u8(), Ok(4));
}

#[test]
fn what_is_written_is_read_back() {
    let mut out = Vec::new();
    write_u8(&mut out, 200);
    write_u16(&mut out, 65535);
    write_u16(&mut out, 256);
    write_i16(&mut out, -32768);
    write_i16(&mut out, 32767);
    write_i16(&mut out, -1);
    write_bytes(&mut out, &vec![5, 6]);
    assert_eq!(out, vec![200, 255, 255, 1, 0, 0x80, 0, 0x7f, 0xff, 0xff, 0xff, 5, 6]);
    let mut reader = PacketReader::new(&out);
    assert_eq!(reader.read_u8(), Ok(200));
    assert_eq!(reader.read_u16(), Ok(65535));
    assert_eq!(reader.read_u16(), Ok(256));
    assert_eq!(reader.read_i16(), Ok(-32768));
    assert_eq!(reader.read_i16(), Ok(32767));
    assert_eq!(reader.read_i16(), Ok(-1));
    assert_eq!(reader.read_bytes(2), Ok(vec![5, 6]));
}

#[test]
fn peeking_reads_without_consuming() {
    let bytes = [0x12u8, 0x34, 5];
    let mut reader = PacketReader::new(&bytes);
    assert_eq!(reader.peek_u16(), Ok(0x1234));
    assert_eq!(reader.get_cursor(), 0);
    assert_eq!(reader.read_u16(), Ok(0x1234));
    assert_eq!(reader.peek_u16(), Err(ProtocolError::Truncated));
    assert_eq!(reader.read_u8(), Ok(5));
}
