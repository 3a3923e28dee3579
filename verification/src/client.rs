//! The benchmark client's decisions: what it learns from each event, which
//! probe packets it sends when, and what it records for each echoed probe.

use vstd::prelude::*;
use crate::{GameConnection, GameNetworkEvent, GameStream};
use crate::bench::BenchmarkRecord;
use crate::packet::{
    law_packet_roundtrip, payload_pool, spec_parse_packet, unix_time_micros, BenchmarkPacket,
    MAX_PAYLOAD_SIZE,
};

verus! {

/// Period of the unreliable (movement-like) probes: about 60 Hz.
pub const UNRELIABLE_INTERVAL_US: u64 = 16666;

/// Period of the reliable (state-like) probes: 20 Hz.
pub const RELIABLE_INTERVAL_US: u64 = 50000;

/// Stream that the unreliable probes are sent on.
pub const UNRELIABLE_STREAM: u16 = 1;

/// Stream that the reliable probes are sent on.
pub const RELIABLE_STREAM: u16 = 2;

/// Payload size of every probe.
pub const PROBE_PAYLOAD_SIZE: usize = 1000;

/// The record for an echoed probe received on `stream` at `now_micros`: its
/// round trip is the time since the probe's timestamp (0 if the clock went
/// backwards).
pub fn probe_record(packet: &BenchmarkPacket, stream: GameStream, now_micros: u64) -> (r:
    BenchmarkRecord)
    ensures
        r.packet_id == packet.id,
        r.stream_id == stream.stream_id,
        r.rtt_us == if now_micros >= packet.timestamp {
            now_micros - packet.timestamp
        } else {
            0
        },
        r.payload_size == packet.payload@.len(),
        r.recv_timestamp == now_micros,
{
    BenchmarkRecord {
        packet_id: packet.id,
        stream_id: stream.stream_id,
        rtt_us: now_micros.saturating_sub(packet.timestamp),
        payload_size: packet.payload.len(),
        recv_timestamp: now_micros,
    }
}

/// The probe that was sent: bytes that parse as a packet with this id whose
/// payload is the first `PROBE_PAYLOAD_SIZE` bytes of the client's pool.
pub open spec fn is_probe(bytes: Seq<u8>, id: u64, pool: Seq<u8>) -> bool {
    spec_parse_packet(bytes) matches Some((pid, _ts, payload)) && pid == id && payload
        == pool.subrange(0, PROBE_PAYLOAD_SIZE as int)
}

/// The client's state between events and ticks.
pub struct ClientState {
    /// The server connection, once known.
    pub server: Option<GameConnection>,
    /// Set when the server went away.
    pub need_stop: bool,
    /// Id of the last probe sent.
    pub packet_seq_id: u64,
    /// When the last unreliable probe went out (microseconds, caller's clock).
    pub last_60hz_tick: u64,
    /// When the last reliable probe went out (microseconds, caller's clock).
    pub last_20hz_tick: u64,
    /// The random bytes that every probe's payload is cut from.
    pub pool: Vec<u8>,
}

impl ClientState {
    /// Whether an unreliable probe is due at `now_us`.
    pub open spec fn due_unreliable(self, now_us: u64) -> bool {
        self.server is Some && now_us - self.last_60hz_tick >= UNRELIABLE_INTERVAL_US
    }

    /// Whether a reliable probe is due at `now_us`.
    pub open spec fn due_reliable(self, now_us: u64) -> bool {
        self.server is Some && now_us - self.last_20hz_tick >= RELIABLE_INTERVAL_US
    }

    /// How many probes are due at `now_us`.
    pub open spec fn probes_due(self, now_us: u64) -> int {
        (if self.due_unreliable(now_us) {
            1int
        } else {
            0int
        }) + (if self.due_reliable(now_us) {
            1int
        } else {
            0int
        })
    }

    /// The state at start-up, at time `now_us` of the caller's clock.
    pub fn new(now_us: u64) -> (s: Self)
        ensures
            s.server is None,
            !s.need_stop,
            s.packet_seq_id == 0,
            s.last_60hz_tick == now_us,
            s.last_20hz_tick == now_us,
            s.pool@.len() == MAX_PAYLOAD_SIZE,
    {
        ClientState {
            server: None,
            need_stop: false,
            packet_seq_id: 0,
            last_60hz_tick: now_us,
            last_20hz_tick: now_us,
            pool: payload_pool(),
        }
    }

    /// What the client learns from one event handled when the system clock
    /// reads `now_micros`: the server's connection, its departure (which
    /// stops the client), or the record of an echoed probe received at
    /// `now_micros`, whose round trip is the time since the probe's
    /// timestamp (0 if the clock went backwards). Invalid messages and other
    /// events are ignored.
    pub fn on_event_at(&mut self, event: GameNetworkEvent, now_micros: u64) -> (r: Option<
        BenchmarkRecord,
    >)
        ensures
            final(self).packet_seq_id == old(self).packet_seq_id,
            final(self).last_60hz_tick == old(self).last_60hz_tick,
            final(self).last_20hz_tick == old(self).last_20hz_tick,
            final(self).pool == old(self).pool,
            match event {
                GameNetworkEvent::Connected(c) => {
                    &&& final(self).server == Some(c)
                    &&& final(self).need_stop == old(self).need_stop
                    &&& r is None
                },
                GameNetworkEvent::Disconnected(_) => {
                    &&& final(self).server is None
                    &&& final(self).need_stop
                    &&& r is None
                },
                GameNetworkEvent::Message { connection: _, stream, data } => {
                    &&& final(self).server == old(self).server
                    &&& final(self).need_stop == old(self).need_stop
                    &&& match spec_parse_packet(data@) {
                        Some((id, ts, payload)) => r matches Some(rec) && rec.packet_id == id
                            && rec.stream_id == stream.stream_id && rec.payload_size
                            == payload.len() && rec.recv_timestamp == now_micros && rec.rtt_us
                            == if now_micros >= ts {
                            now_micros - ts
                        } else {
                            0
                        },
                        None => r is None,
                    }
                },
                _ => {
                    &&& final(self).server == old(self).server
                    &&& final(self).need_stop == old(self).need_stop
                    &&& r is None
                },
            },
    {
        match event {
            GameNetworkEvent::Connected(connection) => {
                self.server = Some(connection);
                None
            },
            GameNetworkEvent::Disconnected(_) => {
                self.server = None;
                self.need_stop = true;
                None
            },
            GameNetworkEvent::Message { connection: _, stream, data } => {
                match BenchmarkPacket::from_bytes(data) {
                    Some(packet) => {
                        Some(probe_record(&packet, stream, now_micros))
                    },
                    None => None,
                }
            },
            _ => None,
        }
    }

    /// What the client learns from one event: the server's connection, its
    /// departure (which stops the client), or the record of an echoed probe,
    /// received at the current time of the system clock, whose round trip is
    /// the time since the probe's timestamp. Invalid messages and other
    /// events are ignored.
    pub fn on_event(&mut self, event: GameNetworkEvent) -> (r: Option<BenchmarkRecord>)
        ensures
            final(self).packet_seq_id == old(self).packet_seq_id,
            final(self).last_60hz_tick == old(self).last_60hz_tick,
            final(self).last_20hz_tick == old(self).last_20hz_tick,
            final(self).pool == old(self).pool,
            match event {
                GameNetworkEvent::Connected(c) => {
                    &&& final(self).server == Some(c)
                    &&& final(self).need_stop == old(self).need_stop
                    &&& r is None
                },
                GameNetworkEvent::Disconnected(_) => {
                    &&& final(self).server is None
                    &&& final(self).need_stop
                    &&& r is None
                },
                GameNetworkEvent::Message { connection: _, stream, data } => {
                    &&& final(self).server == old(self).server
                    &&& final(self).need_stop == old(self).need_stop
                    &&& match spec_parse_packet(data@) {
                        Some((id, ts, payload)) => r matches Some(rec) && rec.packet_id == id
                            && rec.stream_id == stream.stream_id && rec.payload_size
                            == payload.len() && rec.rtt_us == if rec.recv_timestamp >= ts {
                            rec.recv_timestamp - ts
                        } else {
                            0
                        },
                        None => r is None,
                    }
                },
                _ => {
                    &&& final(self).server == old(self).server
                    &&& final(self).need_stop == old(self).need_stop
                    &&& r is None
                },
            },
    {
        let now = unix_time_micros();
        self.on_event_at(event, now)
    }

    /// How many probes are due at `now_us`: one for each stream whose period
    /// has passed, none before the server is known.
    pub fn probes_due_now(&self, now_us: u64) -> (n: u64)
        ensures
            n == self.probes_due(now_us),
    {
        match self.server {
            None => 0,
            Some(_) => {
                let a: u64 = if now_us.saturating_sub(self.last_60hz_tick) >= UNRELIABLE_INTERVAL_US {
                    1
                } else {
                    0
                };
                let b: u64 = if now_us.saturating_sub(self.last_20hz_tick) >= RELIABLE_INTERVAL_US {
                    1
                } else {
                    0
                };
                a + b
            },
        }
    }

    /// The probes due at time `now_us` of the caller's clock, once the server
    /// is known: an unreliable probe on stream 1 when the 60 Hz period has
    /// passed, then a reliable probe on stream 2 when the 20 Hz period has
    /// passed. Each probe takes the next sequence id, carries the first
    /// `PROBE_PAYLOAD_SIZE` bytes of the pool and the system clock's time.
    pub fn on_tick(&mut self, now_us: u64) -> (sends: Vec<(GameConnection, GameStream, Vec<u8>)>)
        requires
            old(self).packet_seq_id + old(self).probes_due(now_us) <= u64::MAX,
            old(self).pool@.len() >= PROBE_PAYLOAD_SIZE,
        ensures
            final(self).server == old(self).server,
            final(self).need_stop == old(self).need_stop,
            final(self).pool == old(self).pool,
            ({
                let due60 = old(self).due_unreliable(now_us);
                let due20 = old(self).due_reliable(now_us);
                let n = old(self).probes_due(now_us);
                &&& sends@.len() == n
                &&& final(self).packet_seq_id == old(self).packet_seq_id + n
                &&& final(self).last_60hz_tick == if due60 {
                    now_us
                } else {
                    old(self).last_60hz_tick
                }
                &&& final(self).last_20hz_tick == if due20 {
                    now_us
                } else {
                    old(self).last_20hz_tick
                }
                &&& forall|i: int|
                    0 <= i < n ==> {
                        let (c, s, b) = #[trigger] sends@[i];
                        &&& Some(c) == old(self).server
                        &&& s.stream_id == if i == 0 && due60 {
                            UNRELIABLE_STREAM
                        } else {
                            RELIABLE_STREAM
                        }
                        &&& is_probe(b@, (old(self).packet_seq_id + i + 1) as u64, old(self).pool@)
                    }
            }),
    {
        let mut sends: Vec<(GameConnection, GameStream, Vec<u8>)> = Vec::new();
        if let Some(conn) = self.server {
            if now_us.saturating_sub(self.last_60hz_tick) >= UNRELIABLE_INTERVAL_US {
                self.packet_seq_id = self.packet_seq_id + 1;
                let packet = BenchmarkPacket::new(
                    self.packet_seq_id,
                    PROBE_PAYLOAD_SIZE,
                    self.pool.as_slice(),
                );
                let bytes = packet.to_bytes();
                proof {
                    law_packet_roundtrip(packet.id, packet.timestamp, packet.payload@);
                }
                sends.push((conn, GameStream::from(UNRELIABLE_STREAM), bytes));
                self.last_60hz_tick = now_us;
            }
            if now_us.saturating_sub(self.last_20hz_tick) >= RELIABLE_INTERVAL_US {
                self.packet_seq_id = self.packet_seq_id + 1;
                let packet = BenchmarkPacket::new(
                    self.packet_seq_id,
                    PROBE_PAYLOAD_SIZE,
                    self.pool.as_slice(),
                );
                let bytes = packet.to_bytes();
                proof {
                    law_packet_roundtrip(packet.id, packet.timestamp, packet.payload@);
                }
                sends.push((conn, GameStream::from(RELIABLE_STREAM), bytes));
                self.last_20hz_tick = now_us;
            }
        }
        sends
    }
}

} // verus!
