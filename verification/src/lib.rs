//! Transport-agnostic game networking: connections, streams, events, and the
//! byte formats and bookkeeping that the transport backends share.

use vstd::prelude::*;

pub mod endian;
pub mod ids;
pub mod wire;
pub mod packet;
pub mod server;
pub mod backend;
pub mod udp;
pub mod tcp;
pub mod quic;
pub mod gns;
pub mod bench;
pub mod stats;
pub mod client;
pub mod files;

verus! {

/// Bits of a stream id that carry its reliability class.
pub const RELIABILITY_MASK: u16 = 0b11;

/// Bit of a stream id that marks an ordered stream.
pub const ORDERING_MASK: u16 = 0b10;

/// A connection to a remote peer, named by the 128-bit value of its UUID
/// (big-endian, as `uuid::Uuid::as_u128` gives it).
#[derive(Debug, Default, Copy, Clone, PartialEq, Eq, Hash, Structural)]
pub struct GameConnection {
    pub connection_id: u128,
}

/// A logical stream inside a connection. The two low bits of the id carry the
/// reliability class, the other bits the stream's index.
#[derive(Debug, Default, Clone, Copy, PartialEq, Eq, Hash, Structural)]
pub struct GameStream {
    pub stream_id: u16,
}

/// How a stream delivers its messages.
#[derive(Debug, Clone, Copy, PartialEq, Eq, Hash, Structural)]
pub enum GameStreamReliability {
    Reliable,
    Unreliable,
    Ordered,
}

/// The flag bits that `GameStream::new` sets for a reliability class.
pub open spec fn reliability_bits(r: GameStreamReliability) -> int {
    match r {
        GameStreamReliability::Reliable => 3,
        GameStreamReliability::Unreliable => 0,
        GameStreamReliability::Ordered => 2,
    }
}

/// The stream id that `GameStream::new(index, r)` produces: the index shifted
/// left by two (bits shifted out of the 16-bit id are lost) plus the flag bits.
pub open spec fn spec_stream_id(index: u16, r: GameStreamReliability) -> int {
    (index as int * 4) % 0x10000 + reliability_bits(r)
}

/// A stream id is reliable when either of its two low bits is set.
pub open spec fn spec_is_reliable(stream_id: u16) -> bool {
    stream_id as int % 4 != 0
}

/// A stream id is ordered when its second-lowest bit is set.
pub open spec fn spec_is_ordered(stream_id: u16) -> bool {
    (stream_id as int / 2) % 2 == 1
}

impl GameStream {
    /// Builds the stream with index `stream_id` and the given reliability class.
    pub fn new(stream_id: u16, game_stream_reliability: GameStreamReliability) -> (s: Self)
        ensures
            s.stream_id == spec_stream_id(stream_id, game_stream_reliability),
    {
        let mut id: u16 = stream_id << 2;
        assert(id == (stream_id as int * 4) % 0x10000) by (bit_vector)
            requires
                id == stream_id << 2,
        ;
        assert(id % 4 == 0) by (bit_vector)
            requires
                id == stream_id << 2,
        ;
        match game_stream_reliability {
            GameStreamReliability::Ordered => {
                let before: u16 = id;
                id = id | ORDERING_MASK;
                assert(id == before + 2) by (bit_vector)
                    requires
                        before % 4 == 0,
                        id == before | 2u16,
                ;
            },
            GameStreamReliability::Reliable => {
                let before: u16 = id;
                id = id | RELIABILITY_MASK;
                assert(id == before + 3) by (bit_vector)
                    requires
                        before % 4 == 0,
                        id == before | 3u16,
                ;
            },
            GameStreamReliability::Unreliable => {},
        }
        GameStream { stream_id: id }
    }

    /// Whether messages on this stream are delivered reliably.
    pub fn is_reliable(&self) -> (r: bool)
        ensures
            r == spec_is_reliable(self.stream_id),
    {
        let id: u16 = self.stream_id;
        let r: bool = id & RELIABILITY_MASK != 0;
        assert(r == (id % 4 != 0)) by (bit_vector)
            requires
                r == (id & 3u16 != 0),
        ;
        r
    }

    /// Whether messages on this stream are delivered in order.
    pub fn is_ordered(&self) -> (r: bool)
        ensures
            r == spec_is_ordered(self.stream_id),
    {
        let id: u16 = self.stream_id;
        let r: bool = id & ORDERING_MASK != 0;
        assert(r == ((id / 2) % 2 == 1)) by (bit_vector)
            requires
                r == (id & 2u16 != 0),
        ;
        r
    }
}

/// Errors that a transport reports.
#[derive(Debug)]
pub enum GameSocketError {
    /// Generic error from the protocol.
    ProtocolError { inner_msg: String },
    /// The protocol could not be initialized.
    InitError { inner_msg: String },
    /// No connection to the remote host.
    ConnectionError,
    /// The socket could not be bound.
    BindError(std::io::Error),
}

#[verifier::external_type_specification]
#[verifier::external_body]
pub struct ExIoError(std::io::Error);

/// What a transport reports to the game loop.
#[derive(Debug)]
pub enum GameNetworkEvent {
    Connected(GameConnection),
    Disconnected(GameConnection),
    Message { connection: GameConnection, stream: GameStream, data: Vec<u8> },
    Error { connection: GameConnection, inner: GameSocketError },
    StreamCreated(GameStream),
    StreamClosed(GameStream),
}

/// A transport that the game loop drives: set up, listen or connect, manage
/// streams, send messages, poll for events, shut down.
///
/// Each operation comes with a predicate over the transport before the call,
/// the transport after it, the arguments and the result. A transport states
/// in it what a call does; where it states nothing, the predicate is `true`.
pub trait GameSocketProtocol {
    /// What a call of `init` does.
    open spec fn does_init(pre: &Self, post: &Self, r: &Result<(), GameSocketError>) -> bool {
        true
    }

    /// What a call of `listen` does.
    open spec fn does_listen(
        pre: &Self,
        post: &Self,
        interface: Seq<char>,
        port: u16,
        r: &Result<(), GameSocketError>,
    ) -> bool {
        true
    }

    /// What a call of `connect` does.
    open spec fn does_connect(
        pre: &Self,
        post: &Self,
        remote_host: Seq<char>,
        remote_port: u16,
        r: &Result<(), GameSocketError>,
    ) -> bool {
        true
    }

    /// What a call of `create_stream` does.
    open spec fn does_create_stream(
        pre: &Self,
        post: &Self,
        conn: GameConnection,
        reliability: GameStreamReliability,
        r: &Result<(), GameSocketError>,
    ) -> bool {
        true
    }

    /// What a call of `close_stream` does.
    open spec fn does_close_stream(
        pre: &Self,
        post: &Self,
        conn: GameConnection,
        stream: GameStream,
        r: &Result<(), GameSocketError>,
    ) -> bool {
        true
    }

    /// What a call of `send` does.
    open spec fn does_send(
        pre: &Self,
        post: &Self,
        conn: GameConnection,
        stream: GameStream,
        msg: Seq<u8>,
        r: &Result<(), GameSocketError>,
    ) -> bool {
        true
    }

    /// What a call of `poll` does.
    open spec fn does_poll(pre: &Self, post: &Self, r: &Result<Option<GameNetworkEvent>, GameSocketError>) -> bool {
        true
    }

    fn init(&mut self) -> (r: Result<(), GameSocketError>)
        ensures
            Self::does_init(&*old(self), &*final(self), &r),
    ;

    fn listen(&mut self, interface: &str, port: u16) -> (r: Result<(), GameSocketError>)
        ensures
            Self::does_listen(&*old(self), &*final(self), interface@, port, &r),
    ;

    fn connect(&mut self, remote_host: &str, remote_port: u16) -> (r: Result<(), GameSocketError>)
        ensures
            Self::does_connect(&*old(self), &*final(self), remote_host@, remote_port, &r),
    ;

    fn create_stream(&mut self, conn: GameConnection, reliability: GameStreamReliability) -> (r:
        Result<(), GameSocketError>)
        ensures
            Self::does_create_stream(&*old(self), &*final(self), conn, reliability, &r),
    ;

    fn close_stream(&mut self, conn: GameConnection, stream: GameStream) -> (r: Result<
        (),
        GameSocketError,
    >)
        ensures
            Self::does_close_stream(&*old(self), &*final(self), conn, stream, &r),
    ;

    fn send(&mut self, conn: &GameConnection, stream: &GameStream, msg: Vec<u8>) -> (r: Result<
        (),
        GameSocketError,
    >)
        ensures
            Self::does_send(&*old(self), &*final(self), *conn, *stream, msg@, &r),
    ;

    fn poll(&mut self) -> (r: Result<Option<GameNetworkEvent>, GameSocketError>)
        ensures
            Self::does_poll(&*old(self), &*final(self), &r),
    ;

    fn shutdown(&mut self) -> Result<(), GameSocketError>;
}

/// A game endpoint running on some transport.
pub struct GamePeer<TProtocol: GameSocketProtocol> {
    pub protocol: TProtocol,
}

impl<P: GameSocketProtocol> GamePeer<P> {
    pub fn new(protocol: P) -> (peer: Self)
        ensures
            peer.protocol == protocol,
    {
        GamePeer { protocol }
    }

    /// Initializes the transport, then listens on every interface at `port`.
    /// A failed initialization is returned as it is, and nothing more is done.
    pub fn listen(&mut self, port: u16) -> (r: Result<(), GameSocketError>)
        ensures
            exists|mid: P, ri: Result<(), GameSocketError>|
                #[trigger] P::does_init(&old(self).protocol, &mid, &ri) && match ri {
                    Err(_) => r == ri && final(self).protocol == mid,
                    Ok(_) => P::does_listen(&mid, &final(self).protocol, "0.0.0.0"@, port, &r),
                },
    {
        let ri = self.protocol.init();
        let ghost mid = self.protocol;
        let ghost gri = ri;
        match ri {
            Err(e) => {
                assert(P::does_init(&old(self).protocol, &mid, &gri));
                Err(e)
            },
            Ok(()) => {
                let r = self.protocol.listen("0.0.0.0", port);
                assert(P::does_init(&old(self).protocol, &mid, &gri));
                r
            },
        }
    }

    /// Initializes the transport, then connects to `addr:port`. A failed
    /// initialization is returned as it is, and nothing more is done.
    pub fn connect(&mut self, addr: &str, port: u16) -> (r: Result<(), GameSocketError>)
        ensures
            exists|mid: P, ri: Result<(), GameSocketError>|
                #[trigger] P::does_init(&old(self).protocol, &mid, &ri) && match ri {
                    Err(_) => r == ri && final(self).protocol == mid,
                    Ok(_) => P::does_connect(&mid, &final(self).protocol, addr@, port, &r),
                },
    {
        let ri = self.protocol.init();
        let ghost mid = self.protocol;
        let ghost gri = ri;
        match ri {
            Err(e) => {
                assert(P::does_init(&old(self).protocol, &mid, &gri));
                Err(e)
            },
            Ok(()) => {
                let r = self.protocol.connect(addr, port);
                assert(P::does_init(&old(self).protocol, &mid, &gri));
                r
            },
        }
    }

    /// Opens a stream on a connection: what the transport does with it.
    pub fn create_stream(&mut self, conn: GameConnection, reliability: GameStreamReliability) -> (r:
        Result<(), GameSocketError>)
        ensures
            P::does_create_stream(&old(self).protocol, &final(self).protocol, conn, reliability, &r),
    {
        self.protocol.create_stream(conn, reliability)
    }

    /// Closes a stream on a connection: what the transport does with it.
    pub fn close_stream(&mut self, conn: GameConnection, stream: GameStream) -> (r: Result<
        (),
        GameSocketError,
    >)
        ensures
            P::does_close_stream(&old(self).protocol, &final(self).protocol, conn, stream, &r),
    {
        self.protocol.close_stream(conn, stream)
    }

    /// Sends a message; a failure of the transport is ignored.
    pub fn send(&mut self, conn: &GameConnection, stream: &GameStream, msg: Vec<u8>)
        ensures
            exists|r: Result<(), GameSocketError>|
                #[trigger] P::does_send(&old(self).protocol, &final(self).protocol, *conn, *stream, msg@, &r),
    {
        let r = self.protocol.send(conn, stream, msg);
        let ghost gr = r;
        assert(P::does_send(&old(self).protocol, &self.protocol, *conn, *stream, msg@, &gr));
    }

    /// The next event of the transport, as it reports it.
    pub fn poll(&mut self) -> (r: Result<Option<GameNetworkEvent>, GameSocketError>)
        ensures
            P::does_poll(&old(self).protocol, &final(self).protocol, &r),
    {
        self.protocol.poll()
    }
}

impl From<u128> for GameConnection {
    fn from(id: u128) -> (c: Self) {
        GameConnection { connection_id: id }
    }
}

impl vstd::std_specs::convert::FromSpecImpl<u128> for GameConnection {
    open spec fn obeys_from_spec() -> bool {
        true
    }

    open spec fn from_spec(id: u128) -> Self {
        GameConnection { connection_id: id }
    }
}

impl From<u16> for GameStream {
    fn from(id: u16) -> (s: Self) {
        GameStream { stream_id: id }
    }
}

impl vstd::std_specs::convert::FromSpecImpl<u16> for GameStream {
    open spec fn obeys_from_spec() -> bool {
        true
    }

    open spec fn from_spec(id: u16) -> Self {
        GameStream { stream_id: id }
    }
}

} // verus!
