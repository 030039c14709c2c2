//! The wire format of a packet: the 20-byte key of the target, the 20-byte
//! key of the sender, the request type and the payload length (each a
//! big-endian 16-bit number), then the payload.
use byteorder::{BigEndian, ByteOrder, WriteBytesExt};
use vstd::prelude::*;

verus! {

/// Length of a key inside a packet.
pub const KEY_LEN: usize = 20;

/// Length of the header of a packet: two keys, the request type and the
/// payload length.
pub const HEADER_LEN: usize = 44;

/// The two bytes of a 16-bit number in big-endian order, high byte first.
pub open spec fn be16(n: u16) -> Seq<u8> {
    seq![(n / 256) as u8, (n % 256) as u8]
}

/// The number that two bytes hold in big-endian order.
pub open spec fn be16_value(high: u8, low: u8) -> u16 {
    (high * 256 + low) as u16
}

/// Appends `n` to `buf` through byteorder's `WriteBytesExt::write_u16::<BigEndian>`.
/// Trusted: the two bytes of `n` are appended high byte first, and writing to a
/// `Vec` does not fail.
#[verifier::external_body]
pub(crate) fn push_u16_be(buf: &mut Vec<u8>, n: u16)
    ensures
        final(buf)@ == old(buf)@ + be16(n),
{
    buf.write_u16::<BigEndian>(n).unwrap();
}

/// Reads a big-endian number from the first two bytes of `buf` through byteorder's
/// `ByteOrder::read_u16` for `BigEndian`, which panics when `buf` is shorter than
/// two bytes. Trusted: the result is the number that those two bytes hold.
#[verifier::external_body]
fn read_u16_be(buf: &[u8]) -> (n: u16)
    requires
        buf@.len() >= 2,
    ensures
        n == be16_value(buf@[0], buf@[1]),
{
    BigEndian::read_u16(buf)
}

/// The bytes of a packet.
pub open spec fn packet_bytes(
    target: Seq<u8>,
    sender: Seq<u8>,
    request_type: u16,
    payload_length: u16,
    payload: Seq<u8>,
) -> Seq<u8> {
    target + sender + be16(request_type) + be16(payload_length) + payload
}

/// The request type that the header of `data` holds.
pub open spec fn header_type(data: Seq<u8>) -> u16 {
    be16_value(data[40], data[41])
}

/// The payload length that the header of `data` holds.
pub open spec fn header_payload_length(data: Seq<u8>) -> u16 {
    be16_value(data[42], data[43])
}

/// Appends the bytes of `bytes` to `data`.
fn append_bytes(data: &mut Vec<u8>, bytes: &[u8])
    ensures
        final(data)@ == old(data)@ + bytes@,
{
    let n = bytes.len();
    for i in 0..n
        invariant
            n == bytes@.len(),
            data@ == old(data)@ + bytes@.subrange(0, i as int),
    {
        data.push(bytes[i]);
        assert(bytes@.subrange(0, i + 1) =~= bytes@.subrange(0, i as int).push(bytes@[i as int]));
    }
    assert(bytes@.subrange(0, n as int) =~= bytes@);
}

/// Builds a packet: the two keys, the request type, the payload length, then
/// the payload. The payload length is written as given, whatever the length
/// of `payload`.
pub fn make_packet(
    target_key: &[u8],
    sender_key: &[u8],
    request_type: u16,
    payload_length: u16,
    payload: &[u8],
) -> (data: Vec<u8>)
    ensures
        data@ == packet_bytes(target_key@, sender_key@, request_type, payload_length, payload@),
{
    let mut data: Vec<u8> = Vec::new();
    append_bytes(&mut data, target_key);
    append_bytes(&mut data, sender_key);
    push_u16_be(&mut data, request_type);
    push_u16_be(&mut data, payload_length);
    append_bytes(&mut data, payload);
    assert(data@ =~= packet_bytes(target_key@, sender_key@, request_type, payload_length, payload@));
    data
}

/// Reads the request type and the payload length from the header of `data`;
/// `None` when `data` is shorter than a header.
pub fn read_header(data: &[u8]) -> (header: Option<(u16, u16)>)
    ensures
        data@.len() < HEADER_LEN ==> header is None,
        data@.len() >= HEADER_LEN ==> header == Some(
            (header_type(data@), header_payload_length(data@)),
        ),
{
    if data.len() < HEADER_LEN {
        return None;
    }
    let request_type = read_u16_be(&data[40..42]);
    let payload_length = read_u16_be(&data[42..44]);
    Some((request_type, payload_length))
}

/// What a packet holds is read back from its bytes: the header of a packet
/// built from two 20-byte keys gives back both keys, the request type, the
/// payload length and the payload.
pub proof fn lemma_packet_roundtrip(
    target: Seq<u8>,
    sender: Seq<u8>,
    request_type: u16,
    payload_length: u16,
    payload: Seq<u8>,
)
    requires
        target.len() == KEY_LEN,
        sender.len() == KEY_LEN,
    ensures
        ({
            let data = packet_bytes(target, sender, request_type, payload_length, payload);
            &&& data.len() == HEADER_LEN + payload.len()
            &&& data.subrange(0, 20) == target
            &&& data.subrange(20, 40) == sender
            &&& header_type(data) == request_type
            &&& header_payload_length(data) == payload_length
            &&& data.subrange(44, data.len() as int) == payload
        }),
{
    let data = packet_bytes(target, sender, request_type, payload_length, payload);
    assert(data.subrange(0, 20) =~= target);
    assert(data.subrange(20, 40) =~= sender);
    assert(data.subrange(44, data.len() as int) =~= payload);
    assert(data[40] == (request_type / 256) as u8);
    assert(data[41] == (request_type % 256) as u8);
    assert(data[42] == (payload_length / 256) as u8);
    assert(data[43] == (payload_length % 256) as u8);
}


/// The bytes of a packet, whatever the lengths of the keys: the target key, then
/// the sender key, then the request type and the payload length, each as two
/// bytes with the high byte first, then the payload.
pub proof fn lemma_packet_layout(
    target: Seq<u8>,
    sender: Seq<u8>,
    request_type: u16,
    payload_length: u16,
    payload: Seq<u8>,
)
    ensures
        ({
            let data = packet_bytes(target, sender, request_type, payload_length, payload);
            let at = (target.len() + sender.len()) as int;
            &&& data.len() == at + 4 + payload.len()
            &&& data.subrange(0, target.len() as int) == target
            &&& data.subrange(target.len() as int, at) == sender
            &&& data[at] as int * 256 + data[at + 1] as int == request_type as int
            &&& data[at + 2] as int * 256 + data[at + 3] as int == payload_length as int
            &&& data.subrange(at + 4, data.len() as int) == payload
        }),
{
    let data = packet_bytes(target, sender, request_type, payload_length, payload);
    let at = (target.len() + sender.len()) as int;
    assert(data.subrange(0, target.len() as int) =~= target);
    assert(data.subrange(target.len() as int, at) =~= sender);
    assert(data.subrange(at + 4, data.len() as int) =~= payload);
    assert(data[at] == (request_type / 256) as u8);
    assert(data[at + 1] == (request_type % 256) as u8);
    assert(data[at + 2] == (payload_length / 256) as u8);
    assert(data[at + 3] == (payload_length % 256) as u8);
}

/// The header of a packet holds the request type in bytes 40 and 41 and the
/// payload length in bytes 42 and 43, each high byte first.
pub proof fn lemma_header_fields(data: Seq<u8>)
    requires
        data.len() >= HEADER_LEN,
    ensures
        header_type(data) as int == data[40] as int * 256 + data[41] as int,
        header_payload_length(data) as int == data[42] as int * 256 + data[43] as int,
{
}

} // verus!
