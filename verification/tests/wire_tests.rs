use dht_node::wire::{make_packet, read_header};

#[test]
fn packet_layout() {
    let packet = make_packet(&[1u8; 20], &[2u8; 20], 0x0102, 0x0304, b"xy");
    let mut expected = vec![1u8; 20];
    expected.extend_from_slice(&[2u8; 20]);
    expected.extend_from_slice(&[0x01, 0x02, 0x03, 0x04]);
    expected.extend_from_slice(b"xy");
    assert_eq!(packet, expected);
}

#[test]
fn packet_numbers_are_big_endian() {
    let packet = make_packet(&[], &[], 517, 768, &[]);
    assert_eq!(packet, vec![2, 5, 3, 0]);
}

#[test]
fn payload_length_is_written_as_given() {
    let packet = make_packet(&[0u8; 20], &[0u8; 20], 4, 0, b"payload");
    assert_eq!(packet.len(), 51);
    assert_eq!(&packet[42..44], &[0, 0]);
    assert_eq!(&packet[44..], b"payload");
}

#[test]
fn header_of_short_data() {
    assert_eq!(read_header(&[0u8; 43]), None);
    assert_eq!(read_header(&[]), None);
}

#[test]
fn header_read_back_from_packet() {
    let packet = make_packet(&[9u8; 20], &[8u8; 20], 0xabcd, 0x1234, b"hello");
    assert_eq!(read_header(&packet), Some((0xabcd, 0x1234)));
    assert_eq!(&packet[0..20], &[9u8; 20]);
    assert_eq!(&packet[20..40], &[8u8; 20]);
    let bare = make_packet(&[0u8; 20], &[0u8; 20], 11, 0, &[]);
    assert_eq!(read_header(&bare), Some((11, 0)));
}
