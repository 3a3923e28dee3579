//! Byte layouts that the transports put on the wire.
//!
//! * stream frame (TCP frames, QUIC datagrams, GNS messages):
//!   `[stream id: u16 BE][payload]`
//! * UDP datagram: `[connection id: 16 bytes][stream id: u16 BE][payload]`
//! * QUIC reliable-stream frame: `[payload length: u32 BE][payload]`

use vstd::prelude::*;
use crate::endian::{
    be_bytes, be_value, lemma_be_roundtrip_bytes, lemma_be_roundtrip_value, lemma_be_value_bound,
    lemma_pow256_values, push_u16_be, push_u32_be, read_be,
};
use crate::ids::{uuid_bytes, uuid_from_slice};

verus! {

/// Size of the UDP datagram header: connection id and stream id.
pub const UDP_HEADER_SIZE: usize = 18;

/// A stream frame.
pub open spec fn spec_stream_frame(stream: u16, data: Seq<u8>) -> Seq<u8> {
    be_bytes(stream as nat, 2) + data
}

/// What a stream frame decodes to: `None` when it is shorter than its header.
pub open spec fn spec_decode_stream_frame(frame: Seq<u8>) -> Option<(u16, Seq<u8>)> {
    if frame.len() < 2 {
        None
    } else {
        Some((be_value(frame.subrange(0, 2)) as u16, frame.subrange(2, frame.len() as int)))
    }
}

/// A UDP datagram.
pub open spec fn spec_udp_datagram(connection: u128, stream: u16, data: Seq<u8>) -> Seq<u8> {
    be_bytes(connection as nat, 16) + be_bytes(stream as nat, 2) + data
}

/// What a UDP datagram decodes to: `None` when it is shorter than its header.
pub open spec fn spec_decode_udp_datagram(d: Seq<u8>) -> Option<(u128, u16, Seq<u8>)> {
    if d.len() < 18 {
        None
    } else {
        Some(
            (
                be_value(d.subrange(0, 16)) as u128,
                be_value(d.subrange(16, 18)) as u16,
                d.subrange(18, d.len() as int),
            ),
        )
    }
}

/// A length-prefixed frame; the length is written as a `u32`, so only its
/// low 32 bits are kept.
pub open spec fn spec_length_frame(data: Seq<u8>) -> Seq<u8> {
    be_bytes(data.len() % 0x1_0000_0000, 4) + data
}

/// What the front of `buf` decodes to as a length-prefixed frame: the
/// payload and the number of bytes the frame takes; `None` while `buf` is
/// shorter than the length prefix or than the frame it announces.
pub open spec fn spec_decode_length_frame(buf: Seq<u8>) -> Option<(Seq<u8>, int)> {
    if buf.len() < 4 {
        None
    } else {
        let n = be_value(buf.subrange(0, 4)) as int;
        if buf.len() < 4 + n {
            None
        } else {
            Some((buf.subrange(4, 4 + n), 4 + n))
        }
    }
}

/// Prefixes `data` with its stream id.
pub fn encode_stream_frame(stream: u16, data: &[u8]) -> (frame: Vec<u8>)
    ensures
        frame@ == spec_stream_frame(stream, data@),
{
    let mut frame: Vec<u8> = Vec::new();
    push_u16_be(&mut frame, stream);
    frame.extend_from_slice(data);
    assert(frame@ =~= spec_stream_frame(stream, data@));
    frame
}

/// Splits a stream frame into its stream id and payload.
pub fn decode_stream_frame(frame: &[u8]) -> (r: Option<(u16, Vec<u8>)>)
    ensures
        match r {
            Some((s, p)) => spec_decode_stream_frame(frame@) == Some((s, p@)),
            None => spec_decode_stream_frame(frame@) is None,
        },
{
    let len: usize = frame.len();
    if len < 2 {
        return None;
    }
    let stream = read_be(frame, 0, 2);
    proof {
        lemma_be_value_bound(frame@.subrange(0, 2));
        lemma_pow256_values();
    }
    let payload = vstd::slice::slice_to_vec(&frame[2..len]);
    Some((stream as u16, payload))
}

/// Builds a UDP datagram: connection id, stream id, payload.
pub fn encode_udp_datagram(connection: u128, stream: u16, data: &[u8]) -> (d: Vec<u8>)
    ensures
        d@ == spec_udp_datagram(connection, stream, data@),
{
    let mut d = uuid_bytes(connection);
    push_u16_be(&mut d, stream);
    d.extend_from_slice(data);
    assert(d@ =~= spec_udp_datagram(connection, stream, data@));
    d
}

/// Splits a UDP datagram into connection id, stream id and payload.
pub fn decode_udp_datagram(d: &[u8]) -> (r: Option<(u128, u16, Vec<u8>)>)
    ensures
        match r {
            Some((c, s, p)) => spec_decode_udp_datagram(d@) == Some((c, s, p@)),
            None => spec_decode_udp_datagram(d@) is None,
        },
{
    let len: usize = d.len();
    if len < UDP_HEADER_SIZE {
        return None;
    }
    let connection = match uuid_from_slice(&d[0..16]) {
        Some(c) => c,
        None => return None,
    };
    let stream = read_be(d, 16, 2);
    proof {
        lemma_be_value_bound(d@.subrange(16, 18));
        lemma_pow256_values();
    }
    let payload = vstd::slice::slice_to_vec(&d[18..len]);
    Some((connection, stream as u16, payload))
}

/// Prefixes `data` with its length (the low 32 bits of it).
pub fn encode_length_frame(data: &[u8]) -> (frame: Vec<u8>)
    ensures
        frame@ == spec_length_frame(data@),
{
    let mut frame: Vec<u8> = Vec::new();
    let len: usize = data.len();
    let len32: u32 = (len as u64 % 0x1_0000_0000u64) as u32;
    push_u32_be(&mut frame, len32);
    frame.extend_from_slice(data);
    assert(frame@ =~= spec_length_frame(data@));
    frame
}

/// Takes one length-prefixed frame off the front of `buf`: its payload and
/// the number of bytes it took; `None` while the frame is incomplete.
pub fn decode_length_frame(buf: &[u8]) -> (r: Option<(Vec<u8>, usize)>)
    ensures
        match r {
            Some((p, used)) => spec_decode_length_frame(buf@) == Some((p@, used as int)),
            None => spec_decode_length_frame(buf@) is None,
        },
{
    let len: usize = buf.len();
    if len < 4 {
        return None;
    }
    proof {
        lemma_be_value_bound(buf@.subrange(0, 4));
        lemma_pow256_values();
    }
    let n: u128 = read_be(buf, 0, 4);
    if ((len - 4) as u128) < n {
        return None;
    }
    let used: usize = 4 + n as usize;
    let payload = vstd::slice::slice_to_vec(&buf[4..used]);
    Some((payload, used))
}

// ---------------------------------------------------------------------------
// Laws

/// Decoding an encoded stream frame gives back its stream id and payload.
pub proof fn law_stream_frame_roundtrip(stream: u16, data: Seq<u8>)
    ensures
        spec_decode_stream_frame(spec_stream_frame(stream, data)) == Some((stream, data)),
{
    let f = spec_stream_frame(stream, data);
    lemma_pow256_values();
    lemma_be_roundtrip_value(stream as nat, 2);
    assert(f.subrange(0, 2) =~= be_bytes(stream as nat, 2));
    assert(f.subrange(2, f.len() as int) =~= data);
}

/// A frame that decodes is re-encoded to the same bytes.
pub proof fn law_stream_frame_reencode(frame: Seq<u8>)
    requires
        spec_decode_stream_frame(frame) is Some,
    ensures
        ({
            let (s, p) = spec_decode_stream_frame(frame).unwrap();
            spec_stream_frame(s, p) == frame
        }),
{
    let head = frame.subrange(0, 2);
    lemma_be_value_bound(head);
    lemma_pow256_values();
    lemma_be_roundtrip_bytes(head);
    assert(spec_stream_frame(be_value(head) as u16, frame.subrange(2, frame.len() as int))
        =~= frame);
}

/// Decoding an encoded UDP datagram gives back its connection, stream and payload.
pub proof fn law_udp_datagram_roundtrip(connection: u128, stream: u16, data: Seq<u8>)
    ensures
        spec_decode_udp_datagram(spec_udp_datagram(connection, stream, data)) == Some(
            (connection, stream, data),
        ),
{
    let d = spec_udp_datagram(connection, stream, data);
    lemma_pow256_values();
    lemma_be_roundtrip_value(stream as nat, 2);
    lemma_be_roundtrip_value(connection as nat, 16);
    assert(d.subrange(0, 16) =~= be_bytes(connection as nat, 16));
    assert(d.subrange(16, 18) =~= be_bytes(stream as nat, 2));
    assert(d.subrange(18, d.len() as int) =~= data);
}

/// A datagram that decodes is re-encoded to the same bytes.
pub proof fn law_udp_datagram_reencode(d: Seq<u8>)
    requires
        spec_decode_udp_datagram(d) is Some,
    ensures
        ({
            let (c, s, p) = spec_decode_udp_datagram(d).unwrap();
            spec_udp_datagram(c, s, p) == d
        }),
{
    let a = d.subrange(0, 16);
    let b = d.subrange(16, 18);
    lemma_be_value_bound(a);
    lemma_be_value_bound(b);
    lemma_pow256_values();
    lemma_be_roundtrip_bytes(a);
    lemma_be_roundtrip_bytes(b);
    assert(spec_udp_datagram(
        be_value(a) as u128,
        be_value(b) as u16,
        d.subrange(18, d.len() as int),
    ) =~= d);
}

/// The length prefix of a frame whose payload fits in a `u32` reads back as
/// the payload's length.
pub proof fn law_length_frame_prefix(data: Seq<u8>)
    requires
        data.len() < 0x1_0000_0000,
    ensures
        spec_length_frame(data).len() == 4 + data.len(),
        be_value(spec_length_frame(data).subrange(0, 4)) == data.len(),
        spec_length_frame(data).subrange(4, 4 + data.len() as int) == data,
{
    let f = spec_length_frame(data);
    lemma_pow256_values();
    lemma_be_roundtrip_value(data.len(), 4);
    assert(f.subrange(0, 4) =~= be_bytes(data.len(), 4));
    assert(f.subrange(4, 4 + data.len() as int) =~= data);
}

/// A frame whose payload fits in a `u32` is read back from the front of a
/// buffer, whatever follows it: its payload, and the bytes it took.
pub proof fn law_length_frame_roundtrip(data: Seq<u8>, rest: Seq<u8>)
    requires
        data.len() < 0x1_0000_0000,
    ensures
        spec_decode_length_frame(spec_length_frame(data) + rest) == Some(
            (data, 4 + data.len() as int),
        ),
{
    let f = spec_length_frame(data);
    let b = f + rest;
    law_length_frame_prefix(data);
    assert(b.subrange(0, 4) =~= f.subrange(0, 4));
    assert(b.subrange(4, 4 + data.len() as int) =~= data);
}

/// The bytes a decoded frame took are exactly the encoding of its payload.
pub proof fn law_length_frame_reencode(buf: Seq<u8>)
    requires
        spec_decode_length_frame(buf) is Some,
    ensures
        ({
            let (p, used) = spec_decode_length_frame(buf).unwrap();
            spec_length_frame(p) == buf.subrange(0, used)
        }),
{
    let head = buf.subrange(0, 4);
    lemma_be_value_bound(head);
    lemma_pow256_values();
    lemma_be_roundtrip_bytes(head);
    let n = be_value(head) as int;
    assert(n % 0x1_0000_0000 == n);
    assert(spec_length_frame(buf.subrange(4, 4 + n)) =~= buf.subrange(0, 4 + n));
}

} // verus!
