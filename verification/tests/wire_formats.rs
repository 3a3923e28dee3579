use game_sockets::endian::{push_be, push_u16_be, push_u32_be, push_u64_be, read_be};
use game_sockets::backend::accepted_connection;
use game_sockets::GameNetworkEvent;
use game_sockets::quic::stream_open_header;
use game_sockets::wire::{
    decode_length_frame, decode_stream_frame, decode_udp_datagram, encode_length_frame,
    encode_stream_frame, encode_udp_datagram,
};

#[test]
fn big_endian_encoding() {
    let mut v = Vec::new();
    push_u16_be(&mut v, 0x0102);
    push_u32_be(&mut v, 0x03040506);
    push_u64_be(&mut v, 0x0708090a0b0c0d0e);
    assert_eq!(v, vec![1, 2, 3, 4, 5, 6, 7, 8, 9, 10, 11, 12, 13, 14]);
    assert_eq!(read_be(&v, 0, 2), 0x0102);
    assert_eq!(read_be(&v, 2, 4), 0x03040506);
    assert_eq!(read_be(&v, 6, 8), 0x0708090a0b0c0d0e);
    let mut w = Vec::new();
    push_be(&mut w, 0x1234, 1);
    assert_eq!(w, vec![0x34]);
}

#[test]
fn uuid_bytes_are_big_endian() {
    let id: u128 = 0xa1a2a3a4b1b2c1c2d1d2d3d4d5d6d7d8;
    let d = encode_udp_datagram(id, 0, &[]);
    assert_eq!(
        d[..16].to_vec(),
        vec![0xa1, 0xa2, 0xa3, 0xa4, 0xb1, 0xb2, 0xc1, 0xc2, 0xd1, 0xd2, 0xd3, 0xd4, 0xd5, 0xd6, 0xd7, 0xd8]
    );
    assert_eq!(decode_udp_datagram(&d), Some((id, 0, vec![])));
    assert_eq!(decode_udp_datagram(&d[..17]), None);
    assert_eq!(encode_udp_datagram(1, 0, &[])[15], 1);
}

#[test]
fn fresh_ids_are_version_4() {
    let (ca, ea) = accepted_connection();
    let (cb, _) = accepted_connection();
    assert!(matches!(ea, GameNetworkEvent::Connected(c) if c == ca));
    let a = ca.connection_id;
    let b = cb.connection_id;
    assert_ne!(a, b);
    assert_eq!(a & 0xF000_C000_0000_0000_0000, 0x4000_8000_0000_0000_0000);
    assert_eq!(uuid::Uuid::from_u128(a).get_version_num(), 4);
}

#[test]
fn stream_frame_layout_and_roundtrip() {
    let f = encode_stream_frame(0x0203, &[9, 8, 7]);
    assert_eq!(f, vec![2, 3, 9, 8, 7]);
    assert_eq!(decode_stream_frame(&f), Some((0x0203, vec![9, 8, 7])));
    assert_eq!(decode_stream_frame(&[1, 2]), Some((0x0102, vec![])));
    assert_eq!(decode_stream_frame(&[1]), None);
    assert_eq!(decode_stream_frame(&[]), None);
}

#[test]
fn udp_datagram_layout_and_roundtrip() {
    let conn: u128 = 0x00112233445566778899aabbccddeeff;
    let d = encode_udp_datagram(conn, 7, b"hi");
    assert_eq!(d.len(), 18 + 2);
    assert_eq!(&d[..16], &uuid::Uuid::from_u128(conn).as_bytes()[..]);
    assert_eq!(&d[16..18], &[0, 7]);
    assert_eq!(&d[18..], b"hi");
    assert_eq!(decode_udp_datagram(&d), Some((conn, 7, b"hi".to_vec())));
    assert_eq!(decode_udp_datagram(&d[..17]), None);
    assert_eq!(decode_udp_datagram(&d[..18]), Some((conn, 7, vec![])));
}

#[test]
fn length_frame_layout() {
    let f = encode_length_frame(&[5; 300]);
    assert_eq!(&f[..4], &[0, 0, 1, 44]);
    assert_eq!(f.len(), 304);
    assert_eq!(encode_length_frame(&[]), vec![0, 0, 0, 0]);
}

#[test]
fn quic_stream_header_is_the_stream_id() {
    assert_eq!(stream_open_header(0x1234), vec![0x12, 0x34]);
}

#[test]
fn length_frames_decode_from_a_buffer() {
    let mut buf = encode_length_frame(&[5, 6, 7]);
    assert_eq!(buf, vec![0, 0, 0, 3, 5, 6, 7]);
    buf.extend_from_slice(&encode_length_frame(&[]));
    buf.extend_from_slice(&[0, 0, 0, 9, 1]);
    assert_eq!(decode_length_frame(&buf), Some((vec![5, 6, 7], 7)));
    let rest = &buf[7..];
    assert_eq!(decode_length_frame(rest), Some((vec![], 4)));
    assert_eq!(decode_length_frame(&rest[4..]), None);
    assert_eq!(decode_length_frame(&[0, 0, 0]), None);
    assert_eq!(decode_length_frame(&[]), None);
}
