use crc::{Crc, CRC_16_IBM_SDLC};
use liaison::error::LiaisonError;
use liaison::endpoint::Endpoint;
use liaison::wire::{
    decode_data, decode_header, decode_packet_header, decode_pong, encode_data, encode_header,
    encode_packet, encode_pong, PacketHeader, OP_DATA, OP_PING,
};

fn x25(data: &[u8]) -> u16 {
    Crc::<u16>::new(&CRC_16_IBM_SDLC).checksum(data)
}

#[test]
fn header_is_opcode_then_little_endian_length() {
    assert_eq!(encode_header(OP_DATA, 0x0102), vec![2, 0x02, 0x01]);
    assert_eq!(
        decode_header(&[1, 0x34, 0x12, 9]),
        Ok(PacketHeader { opcode: 1, length: 0x1234 })
    );
}

#[test]
fn short_header_is_malformed() {
    assert_eq!(decode_header(&[0, 0]), Err(LiaisonError::MalformedHeader));
    assert_eq!(decode_header(&[]), Err(LiaisonError::MalformedHeader));
}

#[test]
fn header_claiming_more_than_follows_is_malformed() {
    let mut packet = encode_header(OP_DATA, 10);
    packet.extend_from_slice(&[1, 2, 3, 4, 5]);
    assert_eq!(decode_packet_header(&packet), Err(LiaisonError::MalformedHeader));
}

#[test]
fn header_matching_its_payload_is_accepted() {
    let packet = encode_packet(OP_PING, &[]);
    assert_eq!(packet, vec![0, 0, 0]);
    assert_eq!(
        decode_packet_header(&packet),
        Ok(PacketHeader { opcode: OP_PING, length: 0 })
    );
}

#[test]
fn data_payload_carries_the_x25_checksum() {
    let encoded = encode_data(b"123456789");
    assert_eq!(encoded.len(), 8 + 9 + 2);
    assert_eq!(&encoded[..8], &[9, 0, 0, 0, 0, 0, 0, 0]);
    assert_eq!(&encoded[8..17], b"123456789");
    assert_eq!(&encoded[17..], &[0x6e, 0x90]);
}

#[test]
fn data_payload_matches_bincode_layout() {
    let data = b"hello".to_vec();
    let expected = bincode::serialize(&(data.clone(), x25(&data))).unwrap();
    assert_eq!(encode_data(&data), expected);
}

#[test]
fn data_round_trip() {
    for data in [&b""[..], &b"hello"[..], &[0u8, 255, 7, 7, 7][..]] {
        assert_eq!(decode_data(&encode_data(data)), Ok(data.to_vec()));
    }
    let big: Vec<u8> = (0..5000u32).map(|i| (i % 251) as u8).collect();
    assert_eq!(decode_data(&encode_data(&big)), Ok(big));
}

#[test]
fn every_single_bit_flip_is_refused() {
    let encoded = encode_data(b"hello");
    for i in 0..encoded.len() {
        for bit in 0..8 {
            let mut flipped = encoded.clone();
            flipped[i] ^= 1 << bit;
            let r = decode_data(&flipped);
            assert_eq!(r, Err(LiaisonError::ChecksumMismatch));
        }
    }
}

#[test]
fn truncated_data_payload_fails_its_check() {
    let encoded = encode_data(b"hello");
    assert_eq!(decode_data(&encoded[..encoded.len() - 1]), Err(LiaisonError::ChecksumMismatch));
    assert_eq!(decode_data(&encoded[..9]), Err(LiaisonError::ChecksumMismatch));
    assert_eq!(decode_data(&[]), Err(LiaisonError::ChecksumMismatch));
}

#[test]
fn pong_round_trip_and_layout() {
    let peers = vec![Endpoint::new(0xC0A8_0114, 1699), Endpoint::new(0x0A00_0001, 80)];
    let encoded = encode_pong(&peers);
    let expected =
        bincode::serialize(&vec![(0xC0A8_0114u32, 1699u16), (0x0A00_0001u32, 80u16)]).unwrap();
    assert_eq!(encoded, expected);
    assert_eq!(decode_pong(&encoded), Ok(peers));
    assert_eq!(decode_pong(&encode_pong(&[])), Ok(vec![]));
}

#[test]
fn pong_with_wrong_count_is_malformed() {
    let mut encoded = encode_pong(&[Endpoint::new(1, 2)]);
    encoded[0] = 2;
    assert_eq!(decode_pong(&encoded), Err(LiaisonError::MalformedPayload));
    encoded[0] = 0xff;
    encoded[7] = 0xff;
    assert_eq!(decode_pong(&encoded), Err(LiaisonError::MalformedPayload));
    assert_eq!(decode_pong(&[1, 0, 0]), Err(LiaisonError::MalformedPayload));
}
