//! Decisions of the TCP backend. Each connection is a length-delimited byte
//! stream; every frame on it is a stream frame (stream id, then payload).

use vstd::prelude::*;
use crate::{GameConnection, GameNetworkEvent, GameStream};
use crate::backend::ConnectionTable;
use crate::ids::is_random_uuid_value;
use crate::wire::{encode_stream_frame, spec_stream_frame};

verus! {

/// The TCP backend's peers: connection id to the handle (of type `S`) that
/// writes frames to that peer's socket.
pub struct TcpBackend<S> {
    pub peers: ConnectionTable<S>,
}

impl<S> TcpBackend<S> {
    pub fn new() -> (b: Self)
        ensures
            b.peers@ == Map::<u128, S>::empty(),
    {
        TcpBackend { peers: ConnectionTable::new() }
    }

    /// A peer that the listener accepted (and already reported) registers
    /// its writer.
    pub fn register_peer(&mut self, connection: u128, writer: S)
        ensures
            final(self).peers@ == old(self).peers@.insert(connection, writer),
    {
        self.peers.insert(connection, writer);
    }

    /// An outgoing connection succeeded: its writer is registered under a
    /// fresh connection id, which is reported.
    pub fn connected(&mut self, writer: S) -> (event: GameNetworkEvent)
        ensures
            event matches GameNetworkEvent::Connected(c) && is_random_uuid_value(c.connection_id)
                && final(self).peers@ == old(self).peers@.insert(c.connection_id, writer),
    {
        self.peers.connect_new(writer)
    }

    /// `Send`: the frame for a message and the writer it goes to; nothing when
    /// the peer is unknown.
    pub fn outgoing(&self, connection: GameConnection, stream: GameStream, data: &[u8]) -> (r:
        Option<(&S, Vec<u8>)>)
        ensures
            match r {
                Some((w, f)) => self.peers@.contains_key(connection.connection_id) && *w
                    == self.peers@[connection.connection_id] && f@ == spec_stream_frame(
                    stream.stream_id,
                    data@,
                ),
                None => !self.peers@.contains_key(connection.connection_id),
            },
    {
        match self.peers.get(connection.connection_id) {
            Some(w) => Some((w, encode_stream_frame(stream.stream_id, data))),
            None => None,
        }
    }
}

} // verus!
