//! Bookkeeping that every transport backend shares: the table of known
//! connections and the events that backends report for stream commands and
//! incoming frames.

use vstd::prelude::*;
use std::collections::HashMap;
use crate::{GameConnection, GameNetworkEvent, GameSocketError, GameStream, GameStreamReliability};
use crate::{spec_stream_id};
use crate::ids::{is_random_uuid_value, new_connection_id};
use crate::wire::{decode_stream_frame, spec_decode_stream_frame};

verus! {

broadcast use vstd::std_specs::hash::group_hash_axioms;

/// Per-connection state of a backend (a peer address, a write channel, a
/// transport connection), keyed by connection id.
pub struct ConnectionTable<V> {
    entries: HashMap<u128, V>,
}

impl<V> View for ConnectionTable<V> {
    type V = Map<u128, V>;

    closed spec fn view(&self) -> Map<u128, V> {
        self.entries@
    }
}

impl<V> ConnectionTable<V> {
    pub fn new() -> (t: Self)
        ensures
            t@ == Map::<u128, V>::empty(),
    {
        ConnectionTable { entries: HashMap::new() }
    }

    /// Registers (or replaces) the state of a connection.
    pub fn insert(&mut self, connection: u128, value: V)
        ensures
            final(self)@ == old(self)@.insert(connection, value),
    {
        self.entries.insert(connection, value);
    }

    pub fn contains(&self, connection: u128) -> (r: bool)
        ensures
            r == self@.contains_key(connection),
    {
        self.entries.contains_key(&connection)
    }

    pub fn get(&self, connection: u128) -> (r: Option<&V>)
        ensures
            match r {
                Some(v) => self@.contains_key(connection) && *v == self@[connection],
                None => !self@.contains_key(connection),
            },
    {
        self.entries.get(&connection)
    }

    /// Forgets a connection, handing back its state.
    pub fn remove(&mut self, connection: u128) -> (r: Option<V>)
        ensures
            final(self)@ == old(self)@.remove(connection),
            match r {
                Some(v) => old(self)@.contains_key(connection) && v == old(self)@[connection],
                None => !old(self)@.contains_key(connection),
            },
    {
        self.entries.remove(&connection)
    }

    /// Registers a new connection under a fresh random id and reports it.
    pub fn connect_new(&mut self, value: V) -> (event: GameNetworkEvent)
        ensures
            event matches GameNetworkEvent::Connected(c) && is_random_uuid_value(c.connection_id)
                && final(self)@ == old(self)@.insert(c.connection_id, value),
    {
        let id = new_connection_id();
        self.entries.insert(id, value);
        GameNetworkEvent::Connected(GameConnection { connection_id: id })
    }
}

/// A connection that a listener accepted: a fresh random connection id, and
/// the event that reports it.
pub fn accepted_connection() -> (r: (GameConnection, GameNetworkEvent))
    ensures
        is_random_uuid_value(r.0.connection_id),
        r.1 == GameNetworkEvent::Connected(r.0),
{
    let c = GameConnection { connection_id: new_connection_id() };
    (c, GameNetworkEvent::Connected(c))
}

/// What polling a backend's event channel found.
pub enum ChannelPoll {
    /// The backend was never started.
    NotStarted,
    /// An event was waiting.
    Received(GameNetworkEvent),
    /// No event is waiting.
    Empty,
    /// The backend has stopped.
    Closed,
}

/// What `poll` reports for a state of the event channel: the waiting event,
/// nothing when none waits, a connection error once the backend has
/// stopped, and a protocol error with `not_initialized` as its message when
/// it was never started.
pub fn poll_outcome(found: ChannelPoll, not_initialized: String) -> (r: Result<
    Option<GameNetworkEvent>,
    GameSocketError,
>)
    ensures
        match found {
            ChannelPoll::NotStarted => r matches Err(GameSocketError::ProtocolError { inner_msg })
                && inner_msg@ == not_initialized@,
            ChannelPoll::Received(e) => r == Ok::<Option<GameNetworkEvent>, GameSocketError>(
                Some(e),
            ),
            ChannelPoll::Empty => r == Ok::<Option<GameNetworkEvent>, GameSocketError>(None),
            ChannelPoll::Closed => r matches Err(GameSocketError::ConnectionError),
        },
{
    match found {
        ChannelPoll::NotStarted => Err(GameSocketError::ProtocolError { inner_msg: not_initialized }),
        ChannelPoll::Received(e) => Ok(Some(e)),
        ChannelPoll::Empty => Ok(None),
        ChannelPoll::Closed => Err(GameSocketError::ConnectionError),
    }
}

/// The event for a stream that a `CreateStream` command opened.
pub fn stream_created_event(stream: u16, reliability: GameStreamReliability) -> (e:
    GameNetworkEvent)
    ensures
        e matches GameNetworkEvent::StreamCreated(s) && s.stream_id == spec_stream_id(
            stream,
            reliability,
        ),
{
    GameNetworkEvent::StreamCreated(GameStream::new(stream, reliability))
}

/// The event for a stream that a `CloseStream` command closed.
pub fn stream_closed_event(stream: u16) -> (e: GameNetworkEvent)
    ensures
        e matches GameNetworkEvent::StreamClosed(s) && s.stream_id == stream,
{
    GameNetworkEvent::StreamClosed(GameStream::from(stream))
}

/// The event for a connection attempt that failed: an error on the default
/// (all-zero) connection.
pub fn connect_failed_event() -> (e: GameNetworkEvent)
    ensures
        e matches GameNetworkEvent::Error { connection, inner } && connection.connection_id == 0
            && inner is ConnectionError,
{
    GameNetworkEvent::Error {
        connection: GameConnection { connection_id: 0 },
        inner: GameSocketError::ConnectionError,
    }
}

/// The message that a stream frame received on `connection` carries; frames
/// shorter than their header are dropped.
pub fn message_from_frame(connection: u128, frame: &[u8]) -> (e: Option<GameNetworkEvent>)
    ensures
        match spec_decode_stream_frame(frame@) {
            Some((s, p)) => e matches Some(GameNetworkEvent::Message { connection: c, stream, data })
                && c.connection_id == connection && stream.stream_id == s && data@ == p,
            None => e is None,
        },
{
    match decode_stream_frame(frame) {
        Some((stream, payload)) => Some(
            GameNetworkEvent::Message {
                connection: GameConnection { connection_id: connection },
                stream: GameStream { stream_id: stream },
                data: payload,
            },
        ),
        None => None,
    }
}

/// The id of the next stream a transport hands out: one past the last. The
/// counter is 16 bits wide and is not allowed to wrap.
pub fn next_stream_id(current: u16) -> (next: u16)
    requires
        current < u16::MAX,
    ensures
        next == current + 1,
{
    current + 1
}

} // verus!
