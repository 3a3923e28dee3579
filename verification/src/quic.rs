//! Decisions of the QUIC backend. Reliable streams travel on QUIC
//! bidirectional streams (opened on first use, introduced by their stream id,
//! then one length-prefixed frame per message); unreliable ones travel as
//! datagrams holding a stream frame.

use vstd::prelude::*;
use crate::{GameConnection, GameNetworkEvent, GameStream, spec_is_reliable};
use crate::backend::ConnectionTable;
use crate::endian::{be_bytes, push_u16_be};
use crate::ids::is_random_uuid_value;
use crate::wire::{encode_length_frame, encode_stream_frame, spec_length_frame, spec_stream_frame};

verus! {

/// How one message goes out over QUIC.
pub enum QuicTransmit {
    /// On the bidirectional stream for `stream_id`, as one frame.
    Reliable { stream_id: u16, frame: Vec<u8> },
    /// As one datagram.
    Datagram(Vec<u8>),
}

/// Whether `t` sends `data` on `stream` as the QUIC backend does: reliable
/// streams as a length-prefixed frame on their QUIC stream, the others as a
/// stream-frame datagram.
pub open spec fn is_quic_transmit(t: QuicTransmit, stream: u16, data: Seq<u8>) -> bool {
    if spec_is_reliable(stream) {
        t matches QuicTransmit::Reliable { stream_id, frame } && stream_id == stream && frame@
            == spec_length_frame(data)
    } else {
        t matches QuicTransmit::Datagram(d) && d@ == spec_stream_frame(stream, data)
    }
}

/// The transmission of a message on `stream`: reliable streams send a
/// length-prefixed frame on their QUIC stream, the others a stream-frame
/// datagram.
pub fn quic_transmit(stream: GameStream, data: &[u8]) -> (t: QuicTransmit)
    ensures
        is_quic_transmit(t, stream.stream_id, data@),
{
    if stream.is_reliable() {
        QuicTransmit::Reliable { stream_id: stream.stream_id, frame: encode_length_frame(data) }
    } else {
        QuicTransmit::Datagram(encode_stream_frame(stream.stream_id, data))
    }
}

/// The bytes that open a reliable QUIC stream: its stream id.
pub fn stream_open_header(stream_id: u16) -> (h: Vec<u8>)
    ensures
        h@ == be_bytes(stream_id as nat, 2),
{
    let mut h: Vec<u8> = Vec::new();
    push_u16_be(&mut h, stream_id);
    assert(h@ =~= be_bytes(stream_id as nat, 2));
    h
}

/// A reliable message on stream `s` of connection `c` is about to go out on
/// its QUIC stream; `open` lists the (connection, stream) pairs whose QUIC
/// stream is open. The stream is opened, and its header written, only for
/// the first message: then the pair is added to `open` and the answer is
/// `true`. Later messages are appended to the open stream.
pub fn reliable_send(open: &mut Vec<(u128, u16)>, c: u128, s: u16) -> (needs_header: bool)
    ensures
        needs_header == !old(open)@.contains((c, s)),
        final(open)@ == if needs_header {
            old(open)@.push((c, s))
        } else {
            old(open)@
        },
        final(open)@.contains((c, s)),
{
    let n: usize = open.len();
    let mut i: usize = 0;
    while i < n
        invariant
            n == open@.len(),
            open@ == old(open)@,
            0 <= i <= n,
            forall|j: int| 0 <= j < i ==> open@[j] != (c, s),
        decreases n - i,
    {
        let (oc, os) = open[i];
        if oc == c && os == s {
            assert(open@[i as int] == (c, s));
            return false;
        }
        i = i + 1;
    }
    open.push((c, s));
    assert(open@[n as int] == (c, s));
    true
}

/// The QUIC backend's connections: connection id to the transport connection
/// (of type `C`).
pub struct QuicBackend<C> {
    pub connections: ConnectionTable<C>,
}

impl<C> QuicBackend<C> {
    pub fn new() -> (b: Self)
        ensures
            b.connections@ == Map::<u128, C>::empty(),
    {
        QuicBackend { connections: ConnectionTable::new() }
    }

    /// An accepted connection (already reported) is registered.
    pub fn register_connection(&mut self, connection: u128, conn: C)
        ensures
            final(self).connections@ == old(self).connections@.insert(connection, conn),
    {
        self.connections.insert(connection, conn);
    }

    /// An outgoing connection was established: it is registered under a fresh
    /// connection id, which is reported.
    pub fn connected(&mut self, conn: C) -> (event: GameNetworkEvent)
        ensures
            event matches GameNetworkEvent::Connected(c) && is_random_uuid_value(c.connection_id)
                && final(self).connections@ == old(self).connections@.insert(c.connection_id, conn),
    {
        self.connections.connect_new(conn)
    }

    /// `Send`: the connection a message goes out on and how; nothing when the
    /// connection is unknown.
    pub fn outgoing(&self, connection: GameConnection, stream: GameStream, data: &[u8]) -> (r:
        Option<(&C, QuicTransmit)>)
        ensures
            match r {
                Some((c, t)) => {
                    &&& self.connections@.contains_key(connection.connection_id)
                    &&& *c == self.connections@[connection.connection_id]
                    &&& is_quic_transmit(t, stream.stream_id, data@)
                },
                None => !self.connections@.contains_key(connection.connection_id),
            },
    {
        match self.connections.get(connection.connection_id) {
            Some(c) => Some((c, quic_transmit(stream, data))),
            None => None,
        }
    }
}

} // verus!
