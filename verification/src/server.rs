//! The echo server's bookkeeping: which clients are connected, and what it
//! answers to each event.

use vstd::prelude::*;
use crate::{GameConnection, GameNetworkEvent, GameStream};
use crate::packet::{law_packet_reencode, spec_packet_bytes, spec_parse_packet, BenchmarkPacket};

verus! {

/// What the server sends back for a message: the packet it carries,
/// serialized again; nothing when the message is not a valid packet.
pub open spec fn spec_echo(data: Seq<u8>) -> Option<Seq<u8>> {
    match spec_parse_packet(data) {
        Some((id, timestamp, payload)) => Some(spec_packet_bytes(id, timestamp, payload)),
        None => None,
    }
}

/// The connections the server currently serves.
pub struct GlobalState {
    pub clients: Vec<GameConnection>,
}

impl GlobalState {
    pub fn new() -> (s: Self)
        ensures
            s.clients@ == Seq::<GameConnection>::empty(),
    {
        GlobalState { clients: Vec::new() }
    }

    /// Records a newly connected client.
    pub fn add_client(&mut self, connection: GameConnection)
        ensures
            final(self).clients@ == old(self).clients@.push(connection),
    {
        self.clients.push(connection);
    }

    /// Forgets every entry of a disconnected client, keeping the others in order.
    pub fn remove_client(&mut self, connection: GameConnection)
        ensures
            final(self).clients@ == old(self).clients@.filter(|c: GameConnection| c != connection),
    {
        let ghost pred = |c: GameConnection| c != connection;
        let mut kept: Vec<GameConnection> = Vec::new();
        let n: usize = self.clients.len();
        let mut i: usize = 0;
        while i < n
            invariant
                n == self.clients@.len(),
                self.clients@ == old(self).clients@,
                0 <= i <= n,
                pred == (|x: GameConnection| x != connection),
                kept@ == self.clients@.subrange(0, i as int).filter(pred),
            decreases n - i,
        {
            let c = self.clients[i];
            let ghost before = kept@;
            if c != connection {
                kept.push(c);
            }
            proof {
                let s = self.clients@.subrange(0, i + 1);
                assert(s.drop_last() =~= self.clients@.subrange(0, i as int));
                assert(s.last() == c);
                reveal_with_fuel(Seq::filter, 1);
                assert(s.filter(pred) == if pred(c) {
                    before.push(c)
                } else {
                    before
                });
            }
            i = i + 1;
        }
        assert(self.clients@.subrange(0, n as int) =~= self.clients@);
        self.clients = kept;
    }

    /// The server's answer to one event: connections and disconnections update
    /// the client list; a message that holds a valid packet is answered on the
    /// same connection and stream with that packet serialized again; every
    /// other event is ignored.
    pub fn handle_event(&mut self, event: GameNetworkEvent) -> (reply: Option<
        (GameConnection, GameStream, Vec<u8>),
    >)
        ensures
            match event {
                GameNetworkEvent::Connected(c) => {
                    &&& final(self).clients@ == old(self).clients@.push(c)
                    &&& reply is None
                },
                GameNetworkEvent::Disconnected(c) => {
                    &&& final(self).clients@ == old(self).clients@.filter(
                        |x: GameConnection| x != c,
                    )
                    &&& reply is None
                },
                GameNetworkEvent::Message { connection, stream, data } => {
                    &&& final(self).clients@ == old(self).clients@
                    &&& match spec_echo(data@) {
                        Some(bytes) => reply matches Some((c, s, b)) && c == connection && s
                            == stream && b@ == bytes,
                        None => reply is None,
                    }
                },
                _ => {
                    &&& final(self).clients@ == old(self).clients@
                    &&& reply is None
                },
            },
    {
        match event {
            GameNetworkEvent::Connected(connection) => {
                self.add_client(connection);
                None
            },
            GameNetworkEvent::Disconnected(connection) => {
                self.remove_client(connection);
                None
            },
            GameNetworkEvent::Message { connection, stream, data } => {
                match BenchmarkPacket::from_bytes(data) {
                    Some(packet) => Some((connection, stream, packet.to_bytes())),
                    None => None,
                }
            },
            _ => None,
        }
    }
}

/// The server echoes a valid packet byte for byte: its answer to a message
/// that holds a valid packet is exactly the message's bytes, and it answers
/// nothing else.
pub proof fn law_echo_is_identity(data: Seq<u8>)
    ensures
        spec_parse_packet(data) is Some ==> spec_echo(data) == Some(data),
        spec_parse_packet(data) is None ==> spec_echo(data) is None,
{
    if spec_parse_packet(data) is Some {
        law_packet_reencode(data);
    }
}

} // verus!
