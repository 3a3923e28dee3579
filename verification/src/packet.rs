//! The benchmark's probe packet and its checksummed byte layout:
//! `[id: u64 BE][timestamp: u64 BE][crc32: u32 BE][payload]`, where the CRC
//! covers id, timestamp and payload.

use vstd::prelude::*;
use crate::endian::{
    be_bytes, be_value, lemma_be_roundtrip_bytes, lemma_be_roundtrip_value, lemma_be_value_bound,
    lemma_pow256_values, push_u32_be, push_u64_be, read_be,
};

verus! {

/// Size of the packet header: id, timestamp and checksum.
pub const PACKET_HEADER_SIZE: usize = 20;

/// Size of the pool that payloads are cut from; no payload is larger.
pub const MAX_PAYLOAD_SIZE: usize = 1048576;

/// One bit step of the reflected CRC-32 (IEEE) register, polynomial
/// `0xEDB88320`.
pub open spec fn crc32_bit(c: u32) -> u32 {
    if c & 1 == 1 {
        (c >> 1) ^ 0xEDB8_8320u32
    } else {
        c >> 1
    }
}

/// The CRC-32 register after taking in one byte.
pub open spec fn crc32_byte(c: u32, b: u8) -> u32 {
    let x = c ^ (b as u32);
    crc32_bit(crc32_bit(crc32_bit(crc32_bit(crc32_bit(crc32_bit(crc32_bit(crc32_bit(x))))))))
}

/// The CRC-32 register after taking in `data`, starting from `init`.
pub open spec fn crc32_from(init: u32, data: Seq<u8>) -> u32
    decreases data.len(),
{
    if data.len() == 0 {
        init
    } else {
        crc32_byte(crc32_from(init, data.drop_last()), data.last())
    }
}

/// The CRC-32 (IEEE) checksum of a byte sequence: the register started
/// from all ones, with all bits inverted at the end.
pub open spec fn crc32(data: Seq<u8>) -> u32 {
    crc32_from(0xFFFF_FFFFu32, data) ^ 0xFFFF_FFFFu32
}

/// The byte-wise exclusive or of two sequences of the same length.
pub open spec fn xor_bytes(a: Seq<u8>, b: Seq<u8>) -> Seq<u8> {
    Seq::new(a.len(), |i: int| a[i] ^ b[i])
}

proof fn lemma_crc32_bit_linear(a: u32, b: u32)
    ensures
        crc32_bit(a ^ b) == crc32_bit(a) ^ crc32_bit(b),
{
    assert(crc32_bit(a ^ b) == crc32_bit(a) ^ crc32_bit(b)) by (bit_vector);
}

proof fn lemma_crc32_byte_linear(c1: u32, b1: u8, c2: u32, b2: u8)
    ensures
        crc32_byte(c1, b1) ^ crc32_byte(c2, b2) == crc32_byte(c1 ^ c2, b1 ^ b2),
{
    let x1 = c1 ^ (b1 as u32);
    let x2 = c2 ^ (b2 as u32);
    assert(x1 ^ x2 == (c1 ^ c2) ^ ((b1 ^ b2) as u32)) by (bit_vector)
        requires
            x1 == c1 ^ (b1 as u32),
            x2 == c2 ^ (b2 as u32),
    ;
    lemma_crc32_bit_n_linear(x1, x2, 8);
    lemma_crc32_byte_is_bit_n(c1, b1);
    lemma_crc32_byte_is_bit_n(c2, b2);
    lemma_crc32_byte_is_bit_n(c1 ^ c2, b1 ^ b2);
}

proof fn lemma_crc32_byte_is_bit_n(c: u32, b: u8)
    ensures
        crc32_byte(c, b) == crc32_bit_n(c ^ (b as u32), 8),
{
    reveal_with_fuel(crc32_bit_n, 9);
}

proof fn lemma_crc32_bit_n_linear(a: u32, b: u32, n: nat)
    ensures
        crc32_bit_n(a ^ b, n) == crc32_bit_n(a, n) ^ crc32_bit_n(b, n),
    decreases n,
{
    if n > 0 {
        lemma_crc32_bit_n_linear(a, b, (n - 1) as nat);
        lemma_crc32_bit_linear(crc32_bit_n(a, (n - 1) as nat), crc32_bit_n(b, (n - 1) as nat));
    }
}

/// `n` bit steps of the register.
spec fn crc32_bit_n(c: u32, n: nat) -> u32
    decreases n,
{
    if n == 0 {
        c
    } else {
        crc32_bit(crc32_bit_n(c, (n - 1) as nat))
    }
}

proof fn lemma_crc32_from_linear(i1: u32, a: Seq<u8>, i2: u32, b: Seq<u8>)
    requires
        a.len() == b.len(),
    ensures
        crc32_from(i1, a) ^ crc32_from(i2, b) == crc32_from(i1 ^ i2, xor_bytes(a, b)),
    decreases a.len(),
{
    if a.len() > 0 {
        let x = xor_bytes(a, b);
        assert(xor_bytes(a.drop_last(), b.drop_last()) =~= x.drop_last());
        lemma_crc32_from_linear(i1, a.drop_last(), i2, b.drop_last());
        lemma_crc32_byte_linear(
            crc32_from(i1, a.drop_last()),
            a.last(),
            crc32_from(i2, b.drop_last()),
            b.last(),
        );
    }
}

proof fn lemma_crc32_byte_nonzero(c: u32, b: u8)
    requires
        c ^ (b as u32) != 0,
    ensures
        crc32_byte(c, b) != 0,
{
    let x = c ^ (b as u32);
    assert(forall|y: u32| y != 0 ==> #[trigger] crc32_bit(y) != 0) by {
        assert forall|y: u32| y != 0 implies #[trigger] crc32_bit(y) != 0 by {
            assert(y != 0 ==> crc32_bit(y) != 0) by (bit_vector);
        }
    }
    assert(crc32_bit(x) != 0);
    assert(crc32_bit(crc32_bit(x)) != 0);
    assert(crc32_bit(crc32_bit(crc32_bit(x))) != 0);
    assert(crc32_bit(crc32_bit(crc32_bit(crc32_bit(x)))) != 0);
    assert(crc32_bit(crc32_bit(crc32_bit(crc32_bit(crc32_bit(x))))) != 0);
    assert(crc32_bit(crc32_bit(crc32_bit(crc32_bit(crc32_bit(crc32_bit(x)))))) != 0);
    assert(crc32_bit(crc32_bit(crc32_bit(crc32_bit(crc32_bit(crc32_bit(crc32_bit(x))))))) != 0);
}

/// The register started from 0 stays 0 over zero bytes, and becomes and
/// stays non-zero from the first non-zero byte on, as long as only one byte
/// is non-zero.
proof fn lemma_crc32_one_byte(e: Seq<u8>, p: int)
    requires
        0 <= p < e.len(),
        e[p] != 0,
        forall|i: int| 0 <= i < e.len() && i != p ==> e[i] == 0,
    ensures
        crc32_from(0, e) != 0,
    decreases e.len(),
{
    let c = crc32_from(0, e.drop_last());
    if p == e.len() - 1 {
        lemma_crc32_zeros(e.drop_last());
        let b = e.last();
        assert(0u32 ^ (b as u32) != 0) by (bit_vector)
            requires
                b != 0,
        ;
        lemma_crc32_byte_nonzero(0, b);
    } else {
        lemma_crc32_one_byte(e.drop_last(), p);
        assert(e.last() == 0);
        assert(c ^ (0u8 as u32) != 0) by (bit_vector)
            requires
                c != 0,
        ;
        lemma_crc32_byte_nonzero(c, 0);
    }
}

proof fn lemma_crc32_zeros(e: Seq<u8>)
    requires
        forall|i: int| 0 <= i < e.len() ==> e[i] == 0,
    ensures
        crc32_from(0, e) == 0,
    decreases e.len(),
{
    if e.len() > 0 {
        lemma_crc32_zeros(e.drop_last());
        assert(crc32_byte(0, 0) == 0) by (bit_vector);
    }
}

/// CRC-32 detects every error confined to one byte: two sequences of the
/// same length that differ in exactly one position have different
/// checksums.
pub proof fn law_crc32_detects_byte_error(a: Seq<u8>, b: Seq<u8>, p: int)
    requires
        a.len() == b.len(),
        0 <= p < a.len(),
        a[p] != b[p],
        forall|i: int| 0 <= i < a.len() && i != p ==> a[i] == b[i],
    ensures
        crc32(a) != crc32(b),
{
    let e = xor_bytes(a, b);
    assert forall|i: int| 0 <= i < e.len() && i != p implies e[i] == 0 by {
        let x = a[i];
        assert(x ^ x == 0) by (bit_vector);
    }
    let ap = a[p];
    let bp = b[p];
    assert(ap ^ bp != 0) by (bit_vector)
        requires
            ap != bp,
    ;
    lemma_crc32_one_byte(e, p);
    lemma_crc32_from_linear(0xFFFF_FFFFu32, a, 0xFFFF_FFFFu32, b);
    let ra = crc32_from(0xFFFF_FFFFu32, a);
    let rb = crc32_from(0xFFFF_FFFFu32, b);
    assert(0xFFFF_FFFFu32 ^ 0xFFFF_FFFFu32 == 0u32) by (bit_vector);
    assert((ra ^ rb) != 0 ==> (ra ^ 0xFFFF_FFFFu32) != (rb ^ 0xFFFF_FFFFu32)) by (bit_vector);
}

/// The bytes the checksum covers: id, timestamp, payload.
pub open spec fn checksummed_bytes(id: u64, timestamp: u64, payload: Seq<u8>) -> Seq<u8> {
    be_bytes(id as nat, 8) + be_bytes(timestamp as nat, 8) + payload
}

/// The byte layout of a packet.
pub open spec fn spec_packet_bytes(id: u64, timestamp: u64, payload: Seq<u8>) -> Seq<u8> {
    be_bytes(id as nat, 8) + be_bytes(timestamp as nat, 8) + be_bytes(
        crc32(checksummed_bytes(id, timestamp, payload)) as nat,
        4,
    ) + payload
}

/// What a byte sequence parses to: `None` when it is shorter than the header
/// or when the stored checksum does not match the one computed over id,
/// timestamp and payload.
pub open spec fn spec_parse_packet(data: Seq<u8>) -> Option<(u64, u64, Seq<u8>)> {
    if data.len() < 20 {
        None
    } else {
        let id = be_value(data.subrange(0, 8)) as u64;
        let timestamp = be_value(data.subrange(8, 16)) as u64;
        let checksum = be_value(data.subrange(16, 20));
        let payload = data.subrange(20, data.len() as int);
        if crc32(checksummed_bytes(id, timestamp, payload)) as nat == checksum {
            Some((id, timestamp, payload))
        } else {
            None
        }
    }
}

/// CRC-32 (IEEE) of a byte slice, from `crc32fast::hash`, which computes the
/// standard reflected CRC-32 with polynomial `0xEDB88320`, initial value and
/// final inversion all ones; the contract states that it is `crc32` of the
/// bytes.
#[verifier::external_body]
fn crc32_of(data: &[u8]) -> (c: u32)
    ensures
        c == crc32(data@),
{
    crc32fast::hash(data)
}

/// `len` random bytes, filled by `rand::rng()` (`RngCore::fill_bytes`). The
/// bytes are random; the contract states only their number.
#[verifier::external_body]
fn random_bytes(len: usize) -> (bytes: Vec<u8>)
    ensures
        bytes@.len() == len,
{
    let mut data = vec![0u8; len];
    rand::RngCore::fill_bytes(&mut rand::rng(), &mut data);
    data
}

/// Microseconds since the Unix epoch by the system clock
/// (`std::time::SystemTime::now`, `duration_since(UNIX_EPOCH)`,
/// `Duration::as_micros`); `None` when the clock is set before the epoch.
/// The value depends on the clock: no clause states it.
#[verifier::external_body]
fn system_clock_micros() -> Option<u128> {
    match std::time::SystemTime::now().duration_since(std::time::UNIX_EPOCH) {
        Ok(d) => Some(d.as_micros()),
        Err(_) => None,
    }
}

/// The time of the system clock in microseconds since the Unix epoch, in
/// 64 bits (the low 64 bits of the count); a clock set before the epoch
/// reads as 0, since these functions do not fail.
pub(crate) fn unix_time_micros() -> u64 {
    match system_clock_micros() {
        Some(t) => {
            let low: u128 = t % 0x1_0000_0000_0000_0000u128;
            low as u64
        },
        None => 0,
    }
}

/// A pool of `MAX_PAYLOAD_SIZE` random bytes that payloads are cut from;
/// a process draws it once and cuts every payload from it.
pub fn payload_pool() -> (pool: Vec<u8>)
    ensures
        pool@.len() == MAX_PAYLOAD_SIZE,
{
    random_bytes(MAX_PAYLOAD_SIZE)
}

/// A probe packet: sequence id, send time in microseconds, payload.
pub struct BenchmarkPacket {
    pub id: u64,
    pub timestamp: u64,
    pub payload: Vec<u8>,
}

impl BenchmarkPacket {
    /// A packet with the given id, the first `size` bytes of the random
    /// `pool` as its payload, and the current time of the system clock as its
    /// timestamp. Packets cut from one pool share their bytes: a shorter
    /// payload is a prefix of a longer one.
    pub fn new(id: u64, size: usize, pool: &[u8]) -> (p: Self)
        requires
            size <= pool@.len(),
        ensures
            p.id == id,
            p.payload@ == pool@.subrange(0, size as int),
    {
        BenchmarkPacket::from_pool(id, pool, size, unix_time_micros())
    }

    /// A packet with the given id, sent at `now`, whose payload is the first
    /// `size` bytes of `pool`: packets cut from one pool share their bytes,
    /// a shorter payload being a prefix of a longer one.
    pub fn from_pool(id: u64, pool: &[u8], size: usize, now: u64) -> (p: Self)
        requires
            size <= pool@.len(),
        ensures
            p.id == id,
            p.timestamp == now,
            p.payload@ == pool@.subrange(0, size as int),
    {
        BenchmarkPacket { id, timestamp: now, payload: vstd::slice::slice_to_vec(&pool[0..size]) }
    }

    /// Serializes the packet: id, timestamp, checksum, payload.
    pub fn to_bytes(&self) -> (bytes: Vec<u8>)
        ensures
            bytes@ == spec_packet_bytes(self.id, self.timestamp, self.payload@),
    {
        let mut covered: Vec<u8> = Vec::new();
        push_u64_be(&mut covered, self.id);
        push_u64_be(&mut covered, self.timestamp);
        covered.extend_from_slice(self.payload.as_slice());
        assert(covered@ =~= checksummed_bytes(self.id, self.timestamp, self.payload@));
        let checksum = crc32_of(covered.as_slice());

        let mut buf: Vec<u8> = Vec::new();
        push_u64_be(&mut buf, self.id);
        push_u64_be(&mut buf, self.timestamp);
        push_u32_be(&mut buf, checksum);
        buf.extend_from_slice(self.payload.as_slice());
        assert(buf@ =~= spec_packet_bytes(self.id, self.timestamp, self.payload@));
        buf
    }

    /// Parses a packet and checks its checksum: `None` when the data is
    /// shorter than the header or the checksum does not match.
    pub fn from_bytes(data: Vec<u8>) -> (r: Option<Self>)
        ensures
            match r {
                Some(p) => spec_parse_packet(data@) == Some((p.id, p.timestamp, p.payload@)),
                None => spec_parse_packet(data@) is None,
            },
    {
        let len: usize = data.len();
        if len < PACKET_HEADER_SIZE {
            return None;
        }
        proof {
            lemma_pow256_values();
            lemma_be_value_bound(data@.subrange(0, 8));
            lemma_be_value_bound(data@.subrange(8, 16));
            lemma_be_value_bound(data@.subrange(16, 20));
        }
        let id = read_be(data.as_slice(), 0, 8) as u64;
        let timestamp = read_be(data.as_slice(), 8, 8) as u64;
        let checksum = read_be(data.as_slice(), 16, 4) as u32;
        let payload = vstd::slice::slice_to_vec(&data.as_slice()[20..len]);

        let mut covered: Vec<u8> = Vec::new();
        push_u64_be(&mut covered, id);
        push_u64_be(&mut covered, timestamp);
        covered.extend_from_slice(payload.as_slice());
        assert(covered@ =~= checksummed_bytes(id, timestamp, payload@));
        if crc32_of(covered.as_slice()) != checksum {
            return None;
        }
        Some(BenchmarkPacket { id, timestamp, payload })
    }
}

// ---------------------------------------------------------------------------
// Laws

/// A serialized packet parses back to the same id, timestamp and payload.
pub proof fn law_packet_roundtrip(id: u64, timestamp: u64, payload: Seq<u8>)
    ensures
        spec_parse_packet(spec_packet_bytes(id, timestamp, payload)) == Some(
            (id, timestamp, payload),
        ),
{
    let b = spec_packet_bytes(id, timestamp, payload);
    let c = crc32(checksummed_bytes(id, timestamp, payload));
    lemma_pow256_values();
    lemma_be_roundtrip_value(id as nat, 8);
    lemma_be_roundtrip_value(timestamp as nat, 8);
    lemma_be_roundtrip_value(c as nat, 4);
    assert(b.subrange(0, 8) =~= be_bytes(id as nat, 8));
    assert(b.subrange(8, 16) =~= be_bytes(timestamp as nat, 8));
    assert(b.subrange(16, 20) =~= be_bytes(c as nat, 4));
    assert(b.subrange(20, b.len() as int) =~= payload);
}

/// Bytes that parse as a packet serialize back to exactly those bytes.
pub proof fn law_packet_reencode(data: Seq<u8>)
    requires
        spec_parse_packet(data) is Some,
    ensures
        ({
            let (id, timestamp, payload) = spec_parse_packet(data).unwrap();
            spec_packet_bytes(id, timestamp, payload) == data
        }),
{
    let a = data.subrange(0, 8);
    let b = data.subrange(8, 16);
    let c = data.subrange(16, 20);
    lemma_pow256_values();
    lemma_be_value_bound(a);
    lemma_be_value_bound(b);
    lemma_be_value_bound(c);
    lemma_be_roundtrip_bytes(a);
    lemma_be_roundtrip_bytes(b);
    lemma_be_roundtrip_bytes(c);
    let (id, timestamp, payload) = spec_parse_packet(data).unwrap();
    assert(spec_packet_bytes(id, timestamp, payload) =~= data);
}

/// The bytes that the checksum of a packet's bytes covers: all but the
/// checksum field itself.
proof fn lemma_covered_bytes(data: Seq<u8>)
    requires
        data.len() >= 20,
    ensures
        checksummed_bytes(
            be_value(data.subrange(0, 8)) as u64,
            be_value(data.subrange(8, 16)) as u64,
            data.subrange(20, data.len() as int),
        ) == data.subrange(0, 16) + data.subrange(20, data.len() as int),
{
    let a = data.subrange(0, 8);
    let b = data.subrange(8, 16);
    lemma_pow256_values();
    lemma_be_value_bound(a);
    lemma_be_value_bound(b);
    lemma_be_roundtrip_bytes(a);
    lemma_be_roundtrip_bytes(b);
    assert(checksummed_bytes(
        be_value(a) as u64,
        be_value(b) as u64,
        data.subrange(20, data.len() as int),
    ) =~= data.subrange(0, 16) + data.subrange(20, data.len() as int));
}

/// A packet damaged in one byte of its id, timestamp or payload no longer
/// parses: the checksum catches every error confined to one byte.
pub proof fn law_packet_detects_byte_error(data: Seq<u8>, damaged: Seq<u8>, p: int)
    requires
        spec_parse_packet(data) is Some,
        damaged.len() == data.len(),
        0 <= p < data.len(),
        p < 16 || p >= 20,
        damaged[p] != data[p],
        forall|i: int| 0 <= i < data.len() && i != p ==> damaged[i] == data[i],
    ensures
        spec_parse_packet(damaged) is None,
{
    let n = data.len() as int;
    lemma_covered_bytes(data);
    lemma_covered_bytes(damaged);
    let ca = data.subrange(0, 16) + data.subrange(20, n);
    let cb = damaged.subrange(0, 16) + damaged.subrange(20, n);
    let q = if p < 16 {
        p
    } else {
        p - 4
    };
    assert forall|i: int| 0 <= i < ca.len() && i != q implies ca[i] == cb[i] by {
        if i < 16 {
            assert(ca[i] == data[i] && cb[i] == damaged[i]);
        } else {
            assert(ca[i] == data[i + 4] && cb[i] == damaged[i + 4]);
        }
    }
    assert(ca[q] != cb[q]);
    law_crc32_detects_byte_error(ca, cb, q);
    assert(damaged.subrange(16, 20) =~= data.subrange(16, 20));
}

} // verus!
