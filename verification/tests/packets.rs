use game_sockets::packet::{payload_pool, BenchmarkPacket, MAX_PAYLOAD_SIZE, PACKET_HEADER_SIZE};

fn packet(id: u64, timestamp: u64, payload: Vec<u8>) -> BenchmarkPacket {
    BenchmarkPacket { id, timestamp, payload }
}

#[test]
fn packet_layout() {
    let p = packet(0x0102030405060708, 0x1112131415161718, vec![0xaa, 0xbb]);
    let b = p.to_bytes();
    assert_eq!(b.len(), PACKET_HEADER_SIZE + 2);
    assert_eq!(&b[..8], &[1, 2, 3, 4, 5, 6, 7, 8]);
    assert_eq!(&b[8..16], &[0x11, 0x12, 0x13, 0x14, 0x15, 0x16, 0x17, 0x18]);
    let mut covered = Vec::new();
    covered.extend_from_slice(&b[..16]);
    covered.extend_from_slice(&[0xaa, 0xbb]);
    assert_eq!(&b[16..20], &crc32fast::hash(&covered).to_be_bytes());
    assert_eq!(&b[20..], &[0xaa, 0xbb]);
}

#[test]
fn checksum_of_known_input() {
    // CRC-32 of id 0, timestamp 0 and an empty payload: 16 zero bytes
    let b = packet(0, 0, vec![]).to_bytes();
    assert_eq!(&b[16..20], &0xecbb4b55u32.to_be_bytes());
}

#[test]
fn packet_roundtrip() {
    let p = packet(77, 123456789, (0..=255u8).collect());
    let q = BenchmarkPacket::from_bytes(p.to_bytes()).unwrap();
    assert_eq!(q.id, 77);
    assert_eq!(q.timestamp, 123456789);
    assert_eq!(q.payload, p.payload);
}

#[test]
fn packet_reencodes_to_the_same_bytes() {
    let bytes = packet(3, 4, vec![1, 2, 3]).to_bytes();
    let q = BenchmarkPacket::from_bytes(bytes.clone()).unwrap();
    assert_eq!(q.to_bytes(), bytes);
}

#[test]
fn short_packet_is_rejected() {
    assert!(BenchmarkPacket::from_bytes(vec![0; 19]).is_none());
    assert!(BenchmarkPacket::from_bytes(vec![]).is_none());
}

#[test]
fn corrupted_packet_is_rejected() {
    let mut bytes = packet(3, 4, vec![1, 2, 3]).to_bytes();
    bytes[21] ^= 0x40;
    assert!(BenchmarkPacket::from_bytes(bytes.clone()).is_none());
    bytes[21] ^= 0x40;
    bytes[0] ^= 1;
    assert!(BenchmarkPacket::from_bytes(bytes).is_none());
}

#[test]
fn new_packet_has_size_and_clock_time() {
    let before = std::time::SystemTime::now()
        .duration_since(std::time::UNIX_EPOCH)
        .unwrap()
        .as_micros() as u64;
    let pool = payload_pool();
    let p = BenchmarkPacket::new(9, 1000, &pool);
    assert_eq!(p.id, 9);
    assert_eq!(p.payload.len(), 1000);
    assert!(p.timestamp >= before);
    assert!(p.timestamp < before + 60_000_000);
    let q = BenchmarkPacket::new(10, 100, &pool);
    assert_eq!(q.payload[..], p.payload[..100]);
    assert_eq!(p.payload[..], pool[..1000]);
    assert_eq!(BenchmarkPacket::new(1, MAX_PAYLOAD_SIZE, &pool).payload, pool);
    assert_eq!(BenchmarkPacket::new(1, 0, &pool).payload.len(), 0);
}

#[test]
fn checksum_is_crc32_ieee() {
    let b = packet(1, 2, vec![1, 2, 3]).to_bytes();
    assert_eq!(&b[16..20], &0x4159_1484u32.to_be_bytes());
}

#[test]
fn payloads_are_cut_from_the_pool() {
    let pool = payload_pool();
    assert_eq!(pool.len(), MAX_PAYLOAD_SIZE);
    let short = BenchmarkPacket::from_pool(1, &pool, 10, 77);
    let long = BenchmarkPacket::from_pool(2, &pool, 1000, 78);
    assert_eq!(short.id, 1);
    assert_eq!(short.timestamp, 77);
    assert_eq!(long.timestamp, 78);
    assert_eq!(short.payload[..], long.payload[..10]);
    assert_eq!(long.payload[..], pool[..1000]);
    assert!(BenchmarkPacket::from_pool(3, &pool, 0, 0).payload.is_empty());
}

#[test]
fn one_damaged_byte_is_caught() {
    let good = packet(5, 6, vec![7, 8, 9]).to_bytes();
    assert!(BenchmarkPacket::from_bytes(good.clone()).is_some());
    for p in [0usize, 3, 15, 20, 22] {
        for flip in [1u8, 0x80, 0xff] {
            let mut bad = good.clone();
            bad[p] ^= flip;
            assert!(BenchmarkPacket::from_bytes(bad).is_none());
        }
    }
}
