//! Decisions of the UDP backend. UDP has no connections of its own: a
//! "connection" is a remote address remembered under a connection id, and
//! every datagram carries that id and its stream id in a header.

use vstd::prelude::*;
use crate::{GameConnection, GameNetworkEvent, GameStream};
use crate::backend::ConnectionTable;
use crate::ids::is_random_uuid_value;
use crate::wire::{
    decode_udp_datagram, encode_udp_datagram, law_udp_datagram_roundtrip,
    spec_decode_udp_datagram, spec_udp_datagram,
};

verus! {

/// The table of virtual connections after a datagram from `from`: a
/// datagram that decodes records its sender under its connection id; one
/// shorter than the header changes nothing.
pub open spec fn udp_table_after<A>(t: Map<u128, A>, d: Seq<u8>, from: A) -> Map<u128, A> {
    match spec_decode_udp_datagram(d) {
        Some((c, _s, _p)) => t.insert(c, from),
        None => t,
    }
}

/// Whether a datagram introduces a new connection: it decodes and its
/// connection id is not in the table yet.
pub open spec fn udp_announces<A>(t: Map<u128, A>, d: Seq<u8>) -> bool {
    match spec_decode_udp_datagram(d) {
        Some((c, _s, _p)) => !t.contains_key(c),
        None => false,
    }
}

/// The connection id in a datagram's header.
pub open spec fn udp_connection_of(d: Seq<u8>) -> u128 {
    spec_decode_udp_datagram(d).unwrap().0
}

/// The table after the first `k` datagrams of `ds`, the `i`-th from
/// `froms[i]`, starting from `t0`.
pub open spec fn udp_table_before<A>(t0: Map<u128, A>, ds: Seq<Seq<u8>>, froms: Seq<A>, k: nat) -> Map<
    u128,
    A,
>
    decreases k,
{
    if k == 0 {
        t0
    } else {
        udp_table_after(udp_table_before(t0, ds, froms, (k - 1) as nat), ds[k - 1], froms[k - 1])
    }
}

proof fn lemma_udp_table_keeps<A>(t0: Map<u128, A>, ds: Seq<Seq<u8>>, froms: Seq<A>, i: nat, k: nat)
    requires
        i < k,
        spec_decode_udp_datagram(ds[i as int]) is Some,
    ensures
        udp_table_before(t0, ds, froms, k).contains_key(udp_connection_of(ds[i as int])),
    decreases k,
{
    if k > i + 1 {
        lemma_udp_table_keeps(t0, ds, froms, i, (k - 1) as nat);
    }
}

/// Over any sequence of datagrams, a connection is announced at most once:
/// two datagrams that both introduce a connection carry different ids.
pub proof fn law_udp_connected_once<A>(
    t0: Map<u128, A>,
    ds: Seq<Seq<u8>>,
    froms: Seq<A>,
    i: nat,
    j: nat,
)
    requires
        i < j < ds.len(),
        udp_announces(udp_table_before(t0, ds, froms, i), ds[i as int]),
        udp_announces(udp_table_before(t0, ds, froms, j), ds[j as int]),
    ensures
        udp_connection_of(ds[i as int]) != udp_connection_of(ds[j as int]),
{
    lemma_udp_table_keeps(t0, ds, froms, i, j);
}

/// A datagram for a connection already in the table introduces nothing new;
/// the connection's address becomes the sender's.
pub proof fn law_udp_known_connection<A>(t: Map<u128, A>, d: Seq<u8>, from: A)
    requires
        spec_decode_udp_datagram(d) is Some,
        t.contains_key(udp_connection_of(d)),
    ensures
        !udp_announces(t, d),
        udp_table_after(t, d, from) == t.insert(udp_connection_of(d), from),
{
}

/// What one backend sends for a message on connection `c` and stream `s`
/// reaches another as that very message: the receiver records the sender
/// under `c`, announces `c` exactly when it did not know it, and decodes the
/// stream and payload unchanged.
pub proof fn law_udp_exchange<A>(t: Map<u128, A>, c: u128, s: u16, data: Seq<u8>, from: A)
    ensures
        spec_decode_udp_datagram(spec_udp_datagram(c, s, data)) == Some((c, s, data)),
        udp_announces(t, spec_udp_datagram(c, s, data)) == !t.contains_key(c),
        udp_table_after(t, spec_udp_datagram(c, s, data), from) == t.insert(c, from),
{
    law_udp_datagram_roundtrip(c, s, data);
}

/// The UDP backend's table of virtual connections: connection id to the
/// remote address (of type `A`) that datagrams for it go to.
pub struct UdpBackend<A> {
    pub connections: ConnectionTable<A>,
}

impl<A> UdpBackend<A> {
    pub fn new() -> (b: Self)
        ensures
            b.connections@ == Map::<u128, A>::empty(),
    {
        UdpBackend { connections: ConnectionTable::new() }
    }

    /// `Connect`: remembers the remote address under a fresh connection id
    /// and reports the connection.
    pub fn connect(&mut self, addr: A) -> (event: GameNetworkEvent)
        ensures
            event matches GameNetworkEvent::Connected(c) && is_random_uuid_value(c.connection_id)
                && final(self).connections@ == old(self).connections@.insert(
                c.connection_id,
                addr,
            ),
    {
        self.connections.connect_new(addr)
    }

    /// `Send`: the datagram for a message and the address it goes to; nothing
    /// when the connection is unknown.
    pub fn outgoing(&self, connection: GameConnection, stream: GameStream, data: &[u8]) -> (r:
        Option<(&A, Vec<u8>)>)
        ensures
            match r {
                Some((addr, d)) => self.connections@.contains_key(connection.connection_id)
                    && *addr == self.connections@[connection.connection_id] && d@
                    == spec_udp_datagram(connection.connection_id, stream.stream_id, data@),
                None => !self.connections@.contains_key(connection.connection_id),
            },
    {
        match self.connections.get(connection.connection_id) {
            Some(addr) => Some(
                (addr, encode_udp_datagram(connection.connection_id, stream.stream_id, data)),
            ),
            None => None,
        }
    }

    /// An incoming datagram from `from`. Datagrams shorter than the header are
    /// dropped. Otherwise the sender's address is (re)recorded under the
    /// connection id of the header, a connection id seen for the first time
    /// is reported as a new connection, and the payload is reported as a
    /// message on the header's stream.
    pub fn on_datagram(&mut self, datagram: &[u8], from: A) -> (events: Vec<GameNetworkEvent>)
        ensures
            final(self).connections@ == udp_table_after(old(self).connections@, datagram@, from),
            (events@.len() == 2) == udp_announces(old(self).connections@, datagram@),
            match spec_decode_udp_datagram(datagram@) {
                None => events@.len() == 0 && final(self).connections@ == old(
                    self,
                ).connections@,
                Some((c, s, p)) => {
                    &&& final(self).connections@ == old(self).connections@.insert(c, from)
                    &&& events@.len() == if old(self).connections@.contains_key(c) {
                        1int
                    } else {
                        2int
                    }
                    &&& !old(self).connections@.contains_key(c) ==> events@[0]
                        == GameNetworkEvent::Connected(GameConnection { connection_id: c })
                    &&& events@.last() matches GameNetworkEvent::Message {
                        connection,
                        stream,
                        data,
                    } && connection.connection_id == c && stream.stream_id == s && data@ == p
                },
            },
    {
        let mut events: Vec<GameNetworkEvent> = Vec::new();
        match decode_udp_datagram(datagram) {
            None => events,
            Some((connection, stream, payload)) => {
                if !self.connections.contains(connection) {
                    events.push(GameNetworkEvent::Connected(GameConnection { connection_id: connection }));
                }
                self.connections.insert(connection, from);
                events.push(
                    GameNetworkEvent::Message {
                        connection: GameConnection { connection_id: connection },
                        stream: GameStream { stream_id: stream },
                        data: payload,
                    },
                );
                events
            },
        }
    }
}

} // verus!
