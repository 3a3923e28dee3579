use game_sockets::client::{ClientState, probe_record, PROBE_PAYLOAD_SIZE};
use game_sockets::packet::{payload_pool, BenchmarkPacket};
use game_sockets::server::GlobalState;
use game_sockets::{GameConnection, GameNetworkEvent, GameSocketError, GameStream};

fn conn(id: u128) -> GameConnection {
    GameConnection { connection_id: id }
}

#[test]
fn server_tracks_clients() {
    let mut s = GlobalState::new();
    assert!(s.clients.is_empty());
    s.add_client(conn(1));
    s.add_client(conn(2));
    s.add_client(conn(1));
    s.remove_client(conn(1));
    assert_eq!(s.clients, vec![conn(2)]);
    s.remove_client(conn(9));
    assert_eq!(s.clients, vec![conn(2)]);
}

#[test]
fn server_echoes_valid_packets() {
    let mut s = GlobalState::new();
    assert!(s.handle_event(GameNetworkEvent::Connected(conn(5))).is_none());
    assert_eq!(s.clients, vec![conn(5)]);
    let bytes = BenchmarkPacket { id: 1, timestamp: 2, payload: vec![3; 10] }.to_bytes();
    let reply = s.handle_event(GameNetworkEvent::Message {
        connection: conn(5),
        stream: GameStream { stream_id: 2 },
        data: bytes.clone(),
    });
    assert_eq!(reply, Some((conn(5), GameStream { stream_id: 2 }, bytes)));
}

#[test]
fn server_ignores_invalid_packets_and_other_events() {
    let mut s = GlobalState::new();
    let reply = s.handle_event(GameNetworkEvent::Message {
        connection: conn(5),
        stream: GameStream { stream_id: 2 },
        data: vec![1, 2, 3],
    });
    assert!(reply.is_none());
    assert!(s
        .handle_event(GameNetworkEvent::Error { connection: conn(5), inner: GameSocketError::ConnectionError })
        .is_none());
    assert!(s.handle_event(GameNetworkEvent::StreamCreated(GameStream { stream_id: 1 })).is_none());
    s.handle_event(GameNetworkEvent::Connected(conn(5)));
    s.handle_event(GameNetworkEvent::Disconnected(conn(5)));
    assert!(s.clients.is_empty());
}

#[test]
fn probe_record_computes_round_trip() {
    let p = BenchmarkPacket { id: 4, timestamp: 1000, payload: vec![0; 7] };
    let r = probe_record(&p, GameStream { stream_id: 2 }, 1750);
    assert_eq!(r.packet_id, 4);
    assert_eq!(r.stream_id, 2);
    assert_eq!(r.rtt_us, 750);
    assert_eq!(r.payload_size, 7);
    assert_eq!(r.recv_timestamp, 1750);
    let r = probe_record(&p, GameStream { stream_id: 2 }, 500);
    assert_eq!(r.rtt_us, 0);
}

#[test]
fn client_follows_server_connection() {
    let mut c = ClientState::new(0);
    assert!(c.on_event(GameNetworkEvent::Connected(conn(8))).is_none());
    assert_eq!(c.server, Some(conn(8)));
    assert!(!c.need_stop);
    assert!(c.on_event(GameNetworkEvent::Disconnected(conn(8))).is_none());
    assert_eq!(c.server, None);
    assert!(c.need_stop);
}

#[test]
fn client_records_echoed_probes() {
    let mut c = ClientState::new(0);
    let p = BenchmarkPacket::new(3, 1000, &payload_pool());
    let r = c
        .on_event(GameNetworkEvent::Message {
            connection: conn(1),
            stream: GameStream { stream_id: 1 },
            data: p.to_bytes(),
        })
        .unwrap();
    assert_eq!(r.packet_id, 3);
    assert_eq!(r.stream_id, 1);
    assert_eq!(r.payload_size, 1000);
    assert!(r.recv_timestamp >= p.timestamp);
    assert_eq!(r.rtt_us, r.recv_timestamp - p.timestamp);
    assert!(c
        .on_event(GameNetworkEvent::Message { connection: conn(1), stream: GameStream { stream_id: 1 }, data: vec![0; 30] })
        .is_none());
}

#[test]
fn client_sends_nothing_before_connecting() {
    let mut c = ClientState::new(0);
    assert!(c.on_tick(1_000_000).is_empty());
    assert_eq!(c.packet_seq_id, 0);
}

#[test]
fn client_schedules_probes() {
    let mut c = ClientState::new(0);
    c.on_event(GameNetworkEvent::Connected(conn(8)));
    assert!(c.on_tick(10_000).is_empty());
    let sends = c.on_tick(16_666);
    assert_eq!(sends.len(), 1);
    assert_eq!(sends[0].0, conn(8));
    assert_eq!(sends[0].1.stream_id, 1);
    let p = BenchmarkPacket::from_bytes(sends[0].2.clone()).unwrap();
    assert_eq!(p.id, 1);
    assert_eq!(p.payload.len(), PROBE_PAYLOAD_SIZE);
    assert_eq!(p.payload[..], c.pool[..PROBE_PAYLOAD_SIZE]);
    assert_eq!(c.last_60hz_tick, 16_666);
    assert_eq!(c.probes_due_now(20_000), 0);
    assert_eq!(c.probes_due_now(40_000), 1);
    assert_eq!(c.probes_due_now(50_000), 2);
    let sends = c.on_tick(50_000);
    assert_eq!(sends.len(), 2);
    assert_eq!(sends[0].1.stream_id, 1);
    assert_eq!(sends[1].1.stream_id, 2);
    assert_eq!(BenchmarkPacket::from_bytes(sends[0].2.clone()).unwrap().id, 2);
    assert_eq!(BenchmarkPacket::from_bytes(sends[1].2.clone()).unwrap().id, 3);
    assert_eq!(
        BenchmarkPacket::from_bytes(sends[1].2.clone()).unwrap().payload,
        BenchmarkPacket::from_bytes(sends[0].2.clone()).unwrap().payload
    );
    assert_eq!(c.packet_seq_id, 3);
    assert_eq!(c.last_20hz_tick, 50_000);
}

#[test]
fn client_counts_due_probes() {
    let mut c = ClientState::new(0);
    assert_eq!(c.probes_due_now(1_000_000), 0);
    c.on_event(GameNetworkEvent::Connected(conn(8)));
    assert_eq!(c.probes_due_now(16_665), 0);
    assert_eq!(c.probes_due_now(16_666), 1);
    assert_eq!(c.probes_due_now(50_000), 2);
    c.packet_seq_id = u64::MAX - 1;
    assert_eq!(c.on_tick(16_666).len(), 1);
    assert_eq!(c.packet_seq_id, u64::MAX);
}
