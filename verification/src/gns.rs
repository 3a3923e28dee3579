//! Decisions of the GameNetworkingSockets backend: which connection-state
//! changes matter, the two-way table between GNS connection handles and
//! connection ids, the streams seen on each connection, and how messages go
//! out (reliable streams on lane 0, the others on lane 1).

use vstd::prelude::*;
use std::collections::HashMap;
use crate::{GameConnection, GameNetworkEvent, GameStream, spec_is_reliable};
use crate::endian::{be_value, lemma_be_value_bound, lemma_pow256_values, read_be};
use crate::ids::{is_random_uuid_value, new_connection_id};
use crate::wire::{encode_stream_frame, spec_stream_frame};

verus! {

broadcast use vstd::std_specs::hash::group_hash_axioms;

/// The states of a GNS connection.
#[derive(Debug, Clone, Copy, PartialEq, Eq, Structural)]
pub enum GnsConnectionState {
    NotConnected,
    Connecting,
    FindingRoute,
    Connected,
    ClosedByPeer,
    ProblemDetectedLocally,
    FinWait,
    Linger,
    Dead,
}

/// What the backend does about a change of connection state.
#[derive(Debug, Clone, Copy, PartialEq, Eq, Structural)]
pub enum GnsTransition {
    /// A peer started connecting: accept it (servers) and register it.
    Accept,
    /// The connection came up: configure lanes, register it if unknown.
    Established,
    /// The connection went down: forget it and close it.
    Closed,
    /// Nothing to do.
    Ignored,
}

pub open spec fn spec_transition(old: GnsConnectionState, new: GnsConnectionState) -> GnsTransition {
    if old is NotConnected && new is Connecting {
        GnsTransition::Accept
    } else if old is Connecting && new is Connected {
        GnsTransition::Established
    } else if new is ClosedByPeer || new is ProblemDetectedLocally {
        GnsTransition::Closed
    } else {
        GnsTransition::Ignored
    }
}

/// Which changes of connection state the backend acts on: a connection
/// that goes down (closed by the peer or a problem detected locally) is
/// closed whatever state it was in; a peer that starts connecting is
/// accepted; a connection that comes up from connecting is established; any
/// other change is ignored.
pub proof fn law_transitions(old: GnsConnectionState, new: GnsConnectionState)
    ensures
        spec_transition(old, GnsConnectionState::ClosedByPeer) == GnsTransition::Closed,
        spec_transition(old, GnsConnectionState::ProblemDetectedLocally) == GnsTransition::Closed,
        spec_transition(GnsConnectionState::NotConnected, GnsConnectionState::Connecting)
            == GnsTransition::Accept,
        spec_transition(GnsConnectionState::Connecting, GnsConnectionState::Connected)
            == GnsTransition::Established,
        spec_transition(old, new) == GnsTransition::Closed <==> (new is ClosedByPeer
            || new is ProblemDetectedLocally),
        spec_transition(old, new) == GnsTransition::Accept <==> (old is NotConnected
            && new is Connecting),
        spec_transition(old, new) == GnsTransition::Established <==> (old is Connecting
            && new is Connected),
{
}

/// Classifies a change of connection state.
pub fn classify_transition(old: GnsConnectionState, new: GnsConnectionState) -> (t: GnsTransition)
    ensures
        t == spec_transition(old, new),
        new is ClosedByPeer || new is ProblemDetectedLocally ==> t == GnsTransition::Closed,
        old is NotConnected && new is Connecting ==> t == GnsTransition::Accept,
        old is Connecting && new is Connected ==> t == GnsTransition::Established,
        t == GnsTransition::Closed ==> new is ClosedByPeer || new is ProblemDetectedLocally,
        t == GnsTransition::Accept ==> old is NotConnected && new is Connecting,
        t == GnsTransition::Established ==> old is Connecting && new is Connected,
{
    match (old, new) {
        (GnsConnectionState::NotConnected, GnsConnectionState::Connecting) => GnsTransition::Accept,
        (GnsConnectionState::Connecting, GnsConnectionState::Connected) => GnsTransition::Established,
        (_, GnsConnectionState::ClosedByPeer) | (_, GnsConnectionState::ProblemDetectedLocally) => {
            GnsTransition::Closed
        },
        _ => GnsTransition::Ignored,
    }
}

/// How one message goes out over GNS.
pub struct GnsSend {
    /// The GNS connection handle.
    pub handle: u32,
    /// Whether to send with the reliable flag.
    pub reliable: bool,
    /// The lane: 0 for reliable streams, 1 for the others.
    pub lane: u16,
    /// The stream frame.
    pub bytes: Vec<u8>,
}

/// Whether `s` is in `list`.
fn contains_stream(list: &Vec<u16>, s: u16) -> (r: bool)
    ensures
        r == list@.contains(s),
{
    let n: usize = list.len();
    let mut i: usize = 0;
    while i < n
        invariant
            n == list@.len(),
            0 <= i <= n,
            forall|j: int| 0 <= j < i ==> list@[j] != s,
        decreases n - i,
    {
        if list[i] == s {
            return true;
        }
        i = i + 1;
    }
    false
}

/// The streams known on a connection after a message on stream `s`.
pub open spec fn streams_after(streams: Map<u128, Seq<u16>>, u: u128, s: u16) -> Seq<u16> {
    let list = if streams.contains_key(u) {
        streams[u]
    } else {
        Seq::empty()
    };
    if list.contains(s) {
        list
    } else {
        list.push(s)
    }
}

/// `post` is `pre` with handle `conn` registered under a fresh random
/// connection id, which `event` reports; the tables stay inverse when the
/// handle was not registered and the drawn id was not in use.
pub open spec fn is_registration(
    pre: GnsBackend,
    post: GnsBackend,
    conn: u32,
    event: GameNetworkEvent,
) -> bool {
    &&& event matches GameNetworkEvent::Connected(c)
    &&& is_random_uuid_value(event->Connected_0.connection_id)
    &&& post.handles() == pre.handles().insert(conn, event->Connected_0.connection_id)
    &&& post.uuids() == pre.uuids().insert(event->Connected_0.connection_id, conn)
    &&& post.streams() == pre.streams()
    &&& pre.wf() && !pre.handles().contains_key(conn) && !pre.uuids().contains_key(
        event->Connected_0.connection_id,
    ) ==> post.wf()
}

/// The GNS backend's bookkeeping.
pub struct GnsBackend {
    handle_to_uuid: HashMap<u32, u128>,
    uuid_to_handle: HashMap<u128, u32>,
    known_streams: HashMap<u128, Vec<u16>>,
}

impl GnsBackend {
    /// Connection handle to connection id.
    pub closed spec fn handles(&self) -> Map<u32, u128> {
        self.handle_to_uuid@
    }

    /// Connection id to connection handle.
    pub closed spec fn uuids(&self) -> Map<u128, u32> {
        self.uuid_to_handle@
    }

    /// Connection id to the stream ids seen on it, in order of first sight.
    pub closed spec fn streams(&self) -> Map<u128, Seq<u16>> {
        self.known_streams@.map_values(|v: Vec<u16>| v@)
    }

    /// The two tables are inverse to each other, streams are only kept for
    /// registered connections, and no stream is listed twice.
    pub open spec fn wf(&self) -> bool {
        &&& forall|h: u32| #[trigger]
            self.handles().contains_key(h) ==> self.uuids().contains_key(self.handles()[h])
                && self.uuids()[self.handles()[h]] == h
        &&& forall|u: u128| #[trigger]
            self.uuids().contains_key(u) ==> self.handles().contains_key(self.uuids()[u])
                && self.handles()[self.uuids()[u]] == u
        &&& forall|u: u128| #[trigger]
            self.streams().contains_key(u) ==> self.uuids().contains_key(u)
                && self.streams()[u].no_duplicates()
    }

    pub fn new() -> (b: Self)
        ensures
            b.wf(),
            b.handles() == Map::<u32, u128>::empty(),
            b.uuids() == Map::<u128, u32>::empty(),
            b.streams() == Map::<u128, Seq<u16>>::empty(),
    {
        let b = GnsBackend {
            handle_to_uuid: HashMap::new(),
            uuid_to_handle: HashMap::new(),
            known_streams: HashMap::new(),
        };
        assert(b.streams() =~= Map::<u128, Seq<u16>>::empty());
        b
    }

    /// Registers a connection handle under a fresh connection id and reports
    /// the connection. The tables stay inverse when the handle was not
    /// registered and the drawn id was not in use.
    fn register(&mut self, conn: u32) -> (event: GameNetworkEvent)
        ensures
            is_registration(*old(self), *final(self), conn, event),
    {
        let id = new_connection_id();
        self.handle_to_uuid.insert(conn, id);
        self.uuid_to_handle.insert(id, conn);
        proof {
            if old(self).wf() && !old(self).handles().contains_key(conn)
                && !old(self).uuids().contains_key(id) {
                assert forall|h: u32| #[trigger] self.handles().contains_key(h) implies self.uuids().contains_key(
                    self.handles()[h],
                ) && self.uuids()[self.handles()[h]] == h by {
                    if h != conn {
                        assert(old(self).handles().contains_key(h));
                        assert(old(self).uuids().contains_key(old(self).handles()[h]));
                    }
                }
                assert forall|u: u128| #[trigger] self.uuids().contains_key(u) implies self.handles().contains_key(
                    self.uuids()[u],
                ) && self.handles()[self.uuids()[u]] == u by {
                    if u != id {
                        assert(old(self).uuids().contains_key(u));
                        assert(old(self).handles().contains_key(old(self).uuids()[u]));
                    }
                }
                assert forall|u: u128| #[trigger] self.streams().contains_key(u) implies self.uuids().contains_key(
                    u,
                ) && self.streams()[u].no_duplicates() by {
                    assert(old(self).streams().contains_key(u));
                }
            }
        }
        GameNetworkEvent::Connected(GameConnection { connection_id: id })
    }

    /// A peer started connecting and was accepted: it is registered under a
    /// fresh connection id, which is reported.
    pub fn accept(&mut self, conn: u32) -> (event: GameNetworkEvent)
        ensures
            is_registration(*old(self), *final(self), conn, event),
    {
        self.register(conn)
    }

    /// A connection came up: registered and reported unless already known.
    pub fn establish(&mut self, conn: u32) -> (event: Option<GameNetworkEvent>)
        ensures
            old(self).handles().contains_key(conn) ==> event is None && final(self).handles()
                == old(self).handles() && final(self).uuids() == old(self).uuids()
                && final(self).streams() == old(self).streams(),
            !old(self).handles().contains_key(conn) ==> (event matches Some(e)
                && is_registration(*old(self), *final(self), conn, e)),
    {
        if self.handle_to_uuid.contains_key(&conn) {
            None
        } else {
            Some(self.register(conn))
        }
    }

    /// A connection went down: it is forgotten with its streams, and reported
    /// when it was known.
    pub fn close(&mut self, conn: u32) -> (event: Option<GameNetworkEvent>)
        ensures
            old(self).wf() ==> final(self).wf(),
            old(self).handles().contains_key(conn) ==> {
                let u = old(self).handles()[conn];
                &&& event == Some(
                    GameNetworkEvent::Disconnected(GameConnection { connection_id: u }),
                )
                &&& final(self).handles() == old(self).handles().remove(conn)
                &&& final(self).uuids() == old(self).uuids().remove(u)
                &&& final(self).streams() == old(self).streams().remove(u)
            },
            !old(self).handles().contains_key(conn) ==> event is None && final(self).handles()
                == old(self).handles() && final(self).uuids() == old(self).uuids()
                && final(self).streams() == old(self).streams(),
    {
        match self.handle_to_uuid.remove(&conn) {
            Some(uuid) => {
                self.uuid_to_handle.remove(&uuid);
                self.known_streams.remove(&uuid);
                proof {
                    assert(self.streams() =~= old(self).streams().remove(uuid));
                    if old(self).wf() {
                        assert(old(self).handles().contains_key(conn));
                        assert(old(self).uuids()[uuid] == conn);
                        assert forall|h: u32| #[trigger] self.handles().contains_key(h) implies self.uuids().contains_key(
                            self.handles()[h],
                        ) && self.uuids()[self.handles()[h]] == h by {
                            assert(old(self).handles().contains_key(h));
                            assert(h != conn);
                            assert(old(self).uuids()[old(self).handles()[h]] == h);
                        }
                        assert forall|u: u128| #[trigger] self.uuids().contains_key(u) implies self.handles().contains_key(
                            self.uuids()[u],
                        ) && self.handles()[self.uuids()[u]] == u by {
                            assert(old(self).uuids().contains_key(u));
                            assert(u != uuid);
                            assert(old(self).handles()[old(self).uuids()[u]] == u);
                        }
                        assert forall|u: u128| #[trigger] self.streams().contains_key(u) implies self.uuids().contains_key(
                            u,
                        ) && self.streams()[u].no_duplicates() by {
                            assert(old(self).streams().contains_key(u));
                        }
                        assert(self.wf());
                    }
                }
                Some(GameNetworkEvent::Disconnected(GameConnection { connection_id: uuid }))
            },
            None => {
                proof {
                    assert(self.handles() =~= old(self).handles());
                    assert(self.uuids() == old(self).uuids());
                    assert(self.streams() == old(self).streams());
                }
                None
            },
        }
    }

    /// A message arrived on a connection handle. Messages on unknown handles
    /// and messages shorter than a stream frame are dropped. Otherwise the
    /// payload is reported as a message on the frame's stream, preceded by a
    /// `StreamCreated` event the first time the stream is seen on that
    /// connection.
    pub fn on_message(&mut self, conn: u32, payload: &[u8]) -> (events: Vec<GameNetworkEvent>)
        ensures
            old(self).wf() ==> final(self).wf(),
            final(self).handles() == old(self).handles(),
            final(self).uuids() == old(self).uuids(),
            !old(self).handles().contains_key(conn) || payload@.len() < 2 ==> events@.len() == 0
                && final(self).streams() == old(self).streams(),
            old(self).handles().contains_key(conn) && payload@.len() >= 2 ==> {
                let u = old(self).handles()[conn];
                let s = be_value(payload@.subrange(0, 2)) as u16;
                let fresh = !(old(self).streams().contains_key(u) && old(
                    self,
                ).streams()[u].contains(s));
                &&& final(self).streams() == old(self).streams().insert(
                    u,
                    streams_after(old(self).streams(), u, s),
                )
                &&& events@.len() == if fresh {
                    2int
                } else {
                    1int
                }
                &&& fresh ==> events@[0] == GameNetworkEvent::StreamCreated(
                    GameStream { stream_id: s },
                )
                &&& events@.last() matches GameNetworkEvent::Message { connection, stream, data }
                    && connection.connection_id == u && stream.stream_id == s && data@
                    == payload@.subrange(2, payload@.len() as int)
            },
    {
        let mut events: Vec<GameNetworkEvent> = Vec::new();
        let uuid: u128 = match self.handle_to_uuid.get(&conn) {
            Some(u) => *u,
            None => return events,
        };
        let len: usize = payload.len();
        if len < 2 {
            return events;
        }
        proof {
            lemma_be_value_bound(payload@.subrange(0, 2));
            lemma_pow256_values();
        }
        let stream_id: u16 = read_be(payload, 0, 2) as u16;
        let ghost old_streams = self.streams();
        let mut list: Vec<u16> = match self.known_streams.remove(&uuid) {
            Some(l) => l,
            None => Vec::new(),
        };
        assert(list@ == if old_streams.contains_key(uuid) {
            old_streams[uuid]
        } else {
            Seq::<u16>::empty()
        });
        if !contains_stream(&list, stream_id) {
            list.push(stream_id);
            events.push(GameNetworkEvent::StreamCreated(GameStream { stream_id }));
        }
        let ghost new_list = list@;
        self.known_streams.insert(uuid, list);
        proof {
            assert(new_list == streams_after(old_streams, uuid, stream_id));
            assert(self.streams() =~= old_streams.insert(uuid, new_list));
            if old(self).wf() {
                assert(old(self).handles().contains_key(conn));
                assert(old(self).handles()[conn] == uuid);
                assert(old(self).uuids().contains_key(uuid));
                if !old_streams.contains_key(uuid) {
                    assert(Seq::<u16>::empty().push(stream_id).no_duplicates());
                }
                assert forall|u: u128| #[trigger] self.streams().contains_key(u) implies self.uuids().contains_key(
                    u,
                ) && self.streams()[u].no_duplicates() by {
                    if u != uuid {
                        assert(old_streams.contains_key(u));
                    } else {
                        let l0 = if old_streams.contains_key(uuid) {
                            old_streams[uuid]
                        } else {
                            Seq::<u16>::empty()
                        };
                        if !l0.contains(stream_id) {
                            assert forall|i: int, j: int|
                                0 <= i < new_list.len() && 0 <= j < new_list.len() && i != j implies new_list[i]
                                != new_list[j] by {
                                if i == l0.len() as int {
                                    assert(l0[j] == new_list[j]);
                                } else if j == l0.len() as int {
                                    assert(l0[i] == new_list[i]);
                                }
                            }
                        }
                    }
                }
            }
        }
        let data = vstd::slice::slice_to_vec(&payload[2..len]);
        events.push(
            GameNetworkEvent::Message {
                connection: GameConnection { connection_id: uuid },
                stream: GameStream { stream_id },
                data,
            },
        );
        events
    }

    /// `Send`: how a message on a connection goes out; nothing when the
    /// connection id is unknown.
    pub fn outgoing(&self, connection: GameConnection, stream: GameStream, data: &[u8]) -> (r:
        Option<GnsSend>)
        ensures
            match r {
                Some(m) => {
                    &&& self.uuids().contains_key(connection.connection_id)
                    &&& m.handle == self.uuids()[connection.connection_id]
                    &&& m.reliable == spec_is_reliable(stream.stream_id)
                    &&& m.lane == if m.reliable {
                        0u16
                    } else {
                        1u16
                    }
                    &&& m.bytes@ == spec_stream_frame(stream.stream_id, data@)
                },
                None => !self.uuids().contains_key(connection.connection_id),
            },
    {
        match self.uuid_to_handle.get(&connection.connection_id) {
            Some(handle) => {
                let reliable = stream.is_reliable();
                let lane: u16 = if reliable {
                    0
                } else {
                    1
                };
                Some(
                    GnsSend {
                        handle: *handle,
                        reliable,
                        lane,
                        bytes: encode_stream_frame(stream.stream_id, data),
                    },
                )
            },
            None => None,
        }
    }
}

} // verus!
