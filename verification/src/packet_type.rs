//! The first byte of every packet says what the packet is; this module
//! holds the codes, and the packets that are a code and a number.

use vstd::prelude::*;
use vstd::slice::slice_subrange;
use crate::error::ProtocolError;
use crate::packet_reader::{
    PacketReader, spec_read_u16, spec_u16_bytes, spec_u16_from_bytes, write_u16,
};

verus! {

/// What a packet is.
#[derive(Clone, Copy, Debug, PartialEq, Eq, Structural)]
pub enum PacketType {
    /// Code 1: the number of the packet, then sections for the managers.
    Data,
    /// Code 2: nothing but a sign of life.
    Heartbeat,
    /// Code 3: a client asks for a connection; carries the client's
    /// timestamp.
    ClientHandshake,
    /// Code 4: the server grants the connection.
    ServerHandshake,
    /// Code 5: the server turns the client down.
    ServerReject,
    /// Code 6: the number of a data packet that has arrived.
    Ack,
    /// Any other code, or no code at all.
    Unknown,
}

/// The code of a packet type; 255 for `Unknown`.
pub open spec fn spec_packet_code(packet_type: PacketType) -> u8 {
    match packet_type {
        PacketType::Data => 1,
        PacketType::Heartbeat => 2,
        PacketType::ClientHandshake => 3,
        PacketType::ServerHandshake => 4,
        PacketType::ServerReject => 5,
        PacketType::Ack => 6,
        PacketType::Unknown => 255,
    }
}

/// What a packet is, by its first byte.
pub open spec fn spec_packet_type(packet: Seq<u8>) -> PacketType {
    if packet.len() == 0 {
        PacketType::Unknown
    } else if packet[0] == 1 {
        PacketType::Data
    } else if packet[0] == 2 {
        PacketType::Heartbeat
    } else if packet[0] == 3 {
        PacketType::ClientHandshake
    } else if packet[0] == 4 {
        PacketType::ServerHandshake
    } else if packet[0] == 5 {
        PacketType::ServerReject
    } else if packet[0] == 6 {
        PacketType::Ack
    } else {
        PacketType::Unknown
    }
}

/// The 64-bit number that the first eight bytes of `bytes` carry, the
/// highest byte first.
pub open spec fn spec_read_u64(bytes: Seq<u8>) -> Result<u64, ProtocolError> {
    if bytes.len() < 8 {
        Err(ProtocolError::Truncated)
    } else {
        Ok(
            (spec_u16_from_bytes(bytes[0], bytes[1]) as int * 0x1_0000_0000_0000
                + spec_u16_from_bytes(bytes[2], bytes[3]) as int * 0x1_0000_0000
                + spec_u16_from_bytes(bytes[4], bytes[5]) as int * 0x1_0000 + spec_u16_from_bytes(
                bytes[6],
                bytes[7],
            ) as int) as u64,
        )
    }
}

/// The eight bytes that carry `value`, the highest byte first.
pub open spec fn spec_u64_bytes(value: u64) -> Seq<u8> {
    spec_u16_bytes((value as int / 0x1_0000_0000_0000) as u16) + spec_u16_bytes(
        (value as int / 0x1_0000_0000 % 0x1_0000) as u16,
    ) + spec_u16_bytes((value as int / 0x1_0000 % 0x1_0000) as u16) + spec_u16_bytes(
        (value as int % 0x1_0000) as u16,
    )
}

/// A packet that is nothing but its type.
pub open spec fn spec_bare_packet(packet_type: PacketType) -> Seq<u8> {
    seq![spec_packet_code(packet_type)]
}

/// A packet that is its type and a 16-bit number.
pub open spec fn spec_numbered_packet(packet_type: PacketType, number: u16) -> Seq<u8> {
    seq![spec_packet_code(packet_type)] + spec_u16_bytes(number)
}

/// A data packet: its type, its number, its sections.
pub open spec fn spec_data_packet(packet_index: u16, payload: Seq<u8>) -> Seq<u8> {
    spec_numbered_packet(PacketType::Data, packet_index) + payload
}

/// The packet by which a client asks for a connection: its type and the
/// client's timestamp.
pub open spec fn spec_handshake_packet(timestamp: u64) -> Seq<u8> {
    seq![spec_packet_code(PacketType::ClientHandshake)] + spec_u64_bytes(timestamp)
}

/// The 16-bit number behind the type of a packet.
pub open spec fn spec_packet_number(packet: Seq<u8>) -> Option<u16> {
    if packet.len() < 3 {
        None
    } else {
        Some(spec_u16_from_bytes(packet[1], packet[2]))
    }
}

/// The timestamp behind the type of a handshake packet.
pub open spec fn spec_packet_timestamp(packet: Seq<u8>) -> Option<u64> {
    if packet.len() < 9 {
        None
    } else {
        Some(spec_read_u64(packet.skip(1))->Ok_0)
    }
}

/// Every type but `Unknown` is found again under its code.
pub proof fn lemma_packet_code(packet_type: PacketType, rest: Seq<u8>)
    ensures
        spec_packet_type(seq![spec_packet_code(packet_type)] + rest) == packet_type,
{
    let packet = seq![spec_packet_code(packet_type)] + rest;
    assert(packet[0] == spec_packet_code(packet_type));
}

/// A numbered packet is read back as its type and its number; so is a data
/// packet, and what is behind the number is its payload.
pub proof fn lemma_numbered_packet(packet_type: PacketType, number: u16, payload: Seq<u8>)
    ensures
        spec_packet_type(spec_numbered_packet(packet_type, number) + payload) == packet_type,
        spec_packet_number(spec_numbered_packet(packet_type, number) + payload) == Some(number),
        (spec_numbered_packet(packet_type, number) + payload).skip(3) == payload,
{
    let packet = spec_numbered_packet(packet_type, number) + payload;
    assert(packet[0] == spec_packet_code(packet_type));
    assert(packet[1] == (number as int / 256) as u8);
    assert(packet[2] == (number as int % 256) as u8);
    assert(packet.skip(3) =~= payload);
}

/// The two bytes of a number carry the number.
pub proof fn lemma_u16_pair(value: u16)
    ensures
        spec_u16_bytes(value).len() == 2,
        spec_u16_from_bytes(spec_u16_bytes(value)[0], spec_u16_bytes(value)[1]) == value,
{
}

/// The four 16-bit parts of a 64-bit number make up the number.
pub proof fn lemma_u64_parts(value: int)
    requires
        0 <= value < 0x1_0000_0000_0000_0000,
    ensures
        0 <= value / 0x1_0000_0000_0000 < 0x1_0000,
        (value / 0x1_0000_0000_0000) * 0x1_0000_0000_0000 + (value / 0x1_0000_0000 % 0x1_0000)
            * 0x1_0000_0000 + (value / 0x1_0000 % 0x1_0000) * 0x1_0000 + value % 0x1_0000
            == value,
{
    let low = value % 0x1_0000;
    let rest = value / 0x1_0000;
    assert(value == rest * 0x1_0000 + low);
    let second = rest % 0x1_0000;
    let rest2 = rest / 0x1_0000;
    assert(rest == rest2 * 0x1_0000 + second);
    assert(rest2 == value / 0x1_0000_0000);
    let third = rest2 % 0x1_0000;
    let rest3 = rest2 / 0x1_0000;
    assert(rest2 == rest3 * 0x1_0000 + third);
    assert(rest3 == value / 0x1_0000_0000_0000);
}

/// A handshake packet is read back as a handshake with its timestamp.
pub proof fn lemma_handshake_packet(timestamp: u64)
    ensures
        spec_packet_type(spec_handshake_packet(timestamp)) == PacketType::ClientHandshake,
        spec_packet_timestamp(spec_handshake_packet(timestamp)) == Some(timestamp),
{
    let packet = spec_handshake_packet(timestamp);
    let body = packet.skip(1);
    let a = (timestamp as int / 0x1_0000_0000_0000) as u16;
    let b = (timestamp as int / 0x1_0000_0000 % 0x1_0000) as u16;
    let c = (timestamp as int / 0x1_0000 % 0x1_0000) as u16;
    let d = (timestamp as int % 0x1_0000) as u16;
    lemma_u64_parts(timestamp as int);
    lemma_u16_pair(a);
    lemma_u16_pair(b);
    lemma_u16_pair(c);
    lemma_u16_pair(d);
    assert(packet[0] == 3);
    assert(body =~= spec_u16_bytes(a) + spec_u16_bytes(b) + spec_u16_bytes(c) + spec_u16_bytes(d));
    assert(body.len() == 8);
    assert(body[0] == spec_u16_bytes(a)[0] && body[1] == spec_u16_bytes(a)[1]);
    assert(body[2] == spec_u16_bytes(b)[0] && body[3] == spec_u16_bytes(b)[1]);
    assert(body[4] == spec_u16_bytes(c)[0] && body[5] == spec_u16_bytes(c)[1]);
    assert(body[6] == spec_u16_bytes(d)[0] && body[7] == spec_u16_bytes(d)[1]);
}

impl PacketType {
    /// The code of this type.
    pub fn to_u8(&self) -> (code: u8)
        ensures
            code == spec_packet_code(*self),
    {
        match self {
            PacketType::Data => 1,
            PacketType::Heartbeat => 2,
            PacketType::ClientHandshake => 3,
            PacketType::ServerHandshake => 4,
            PacketType::ServerReject => 5,
            PacketType::Ack => 6,
            PacketType::Unknown => 255,
        }
    }

    /// What `packet` is, by its first byte.
    pub fn get_from_packet(packet: &[u8]) -> (packet_type: PacketType)
        ensures
            packet_type == spec_packet_type(packet@),
    {
        if packet.len() == 0 {
            return PacketType::Unknown;
        }
        let code = packet[0];
        if code == 1 {
            PacketType::Data
        } else if code == 2 {
            PacketType::Heartbeat
        } else if code == 3 {
            PacketType::ClientHandshake
        } else if code == 4 {
            PacketType::ServerHandshake
        } else if code == 5 {
            PacketType::ServerReject
        } else if code == 6 {
            PacketType::Ack
        } else {
            PacketType::Unknown
        }
    }
}

/// A packet that is nothing but its type.
pub fn bare_packet(packet_type: PacketType) -> (packet: Vec<u8>)
    ensures
        packet@ == spec_bare_packet(packet_type),
{
    let mut packet: Vec<u8> = Vec::new();
    packet.push(packet_type.to_u8());
    assert(packet@ =~= spec_bare_packet(packet_type));
    packet
}

/// A packet that is its type and a 16-bit number.
pub fn numbered_packet(packet_type: PacketType, number: u16) -> (packet: Vec<u8>)
    ensures
        packet@ == spec_numbered_packet(packet_type, number),
{
    let mut packet = bare_packet(packet_type);
    write_u16(&mut packet, number);
    packet
}

/// A data packet: its type, its number, its sections.
pub fn data_packet(packet_index: u16, payload: &[u8]) -> (packet: Vec<u8>)
    ensures
        packet@ == spec_data_packet(packet_index, payload@),
{
    let mut packet = numbered_packet(PacketType::Data, packet_index);
    let ghost head = packet@;
    let mut i: usize = 0;
    while i < payload.len()
        invariant
            i <= payload@.len(),
            packet@ == head + payload@.take(i as int),
        decreases payload@.len() - i,
    {
        packet.push(payload[i]);
        assert(packet@ =~= head + payload@.take(i + 1));
        i = i + 1;
    }
    assert(payload@.take(i as int) =~= payload@);
    packet
}

/// The packet by which a client asks for a connection.
pub fn handshake_packet(timestamp: u64) -> (packet: Vec<u8>)
    ensures
        packet@ == spec_handshake_packet(timestamp),
{
    let mut packet = bare_packet(PacketType::ClientHandshake);
    write_u16(&mut packet, (timestamp / 0x1_0000_0000_0000) as u16);
    write_u16(&mut packet, (timestamp / 0x1_0000_0000 % 0x1_0000) as u16);
    write_u16(&mut packet, (timestamp / 0x1_0000 % 0x1_0000) as u16);
    write_u16(&mut packet, (timestamp % 0x1_0000) as u16);
    assert(packet@ =~= spec_handshake_packet(timestamp));
    packet
}

/// The 16-bit number behind the type of a packet; none if the packet is
/// too short to hold one.
pub fn read_number(packet: &[u8]) -> (number: Option<u16>)
    ensures
        number == spec_packet_number(packet@),
{
    if packet.len() < 3 {
        return None;
    }
    let mut reader = PacketReader::new(slice_subrange(packet, 1, packet.len()));
    match reader.read_u16() {
        Ok(number) => {
            assert(spec_read_u16(packet@.subrange(1, packet@.len() as int)) == Ok::<
                u16,
                ProtocolError,
            >(spec_u16_from_bytes(packet@[1], packet@[2])));
            Some(number)
        },
        Err(_) => None,
    }
}

/// The timestamp behind the type of a handshake packet; none if the packet
/// is too short to hold one.
pub fn read_timestamp(packet: &[u8]) -> (timestamp: Option<u64>)
    ensures
        timestamp == spec_packet_timestamp(packet@),
{
    if packet.len() < 9 {
        return None;
    }
    let ghost body = packet@.skip(1);
    let a: u64 = (packet[1] as u64) * 256 + (packet[2] as u64);
    let b: u64 = (packet[3] as u64) * 256 + (packet[4] as u64);
    let c: u64 = (packet[5] as u64) * 256 + (packet[6] as u64);
    let d: u64 = (packet[7] as u64) * 256 + (packet[8] as u64);
    proof {
        assert(a == spec_u16_from_bytes(body[0], body[1]));
        assert(b == spec_u16_from_bytes(body[2], body[3]));
        assert(c == spec_u16_from_bytes(body[4], body[5]));
        assert(d == spec_u16_from_bytes(body[6], body[7]));
    }
    Some(a * 0x1_0000_0000_0000 + b * 0x1_0000_0000 + c * 0x1_0000 + d)
}

} // verus!
