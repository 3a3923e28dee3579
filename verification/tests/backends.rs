use game_sockets::backend::{
    poll_outcome, ChannelPoll, connect_failed_event, message_from_frame, next_stream_id, stream_closed_event,
    stream_created_event, ConnectionTable,
};
use game_sockets::gns::{classify_transition, GnsBackend, GnsConnectionState, GnsTransition};
use game_sockets::quic::{quic_transmit, reliable_send, QuicBackend, QuicTransmit};
use game_sockets::tcp::TcpBackend;
use game_sockets::udp::UdpBackend;
use game_sockets::wire::{encode_length_frame, encode_stream_frame, encode_udp_datagram};
use game_sockets::{GameConnection, GameNetworkEvent, GameSocketError, GameStream, GameStreamReliability};

fn conn(id: u128) -> GameConnection {
    GameConnection { connection_id: id }
}

#[test]
fn connection_table_basics() {
    let mut t: ConnectionTable<&str> = ConnectionTable::new();
    assert!(!t.contains(1));
    t.insert(1, "a");
    t.insert(1, "b");
    assert_eq!(t.get(1), Some(&"b"));
    assert_eq!(t.remove(1), Some("b"));
    assert_eq!(t.remove(1), None);
    let e = t.connect_new("c");
    match e {
        GameNetworkEvent::Connected(c) => assert_eq!(t.get(c.connection_id), Some(&"c")),
        _ => panic!("expected a connection"),
    }
}

#[test]
fn stream_command_events() {
    match stream_created_event(3, GameStreamReliability::Reliable) {
        GameNetworkEvent::StreamCreated(s) => assert_eq!(s.stream_id, 15),
        _ => panic!("wrong event"),
    }
    match stream_closed_event(15) {
        GameNetworkEvent::StreamClosed(s) => assert_eq!(s.stream_id, 15),
        _ => panic!("wrong event"),
    }
    match connect_failed_event() {
        GameNetworkEvent::Error { connection, inner } => {
            assert_eq!(connection.connection_id, 0);
            assert!(matches!(inner, GameSocketError::ConnectionError));
        }
        _ => panic!("wrong event"),
    }
    assert_eq!(next_stream_id(0), 1);
    assert_eq!(next_stream_id(41), 42);
}

#[test]
fn frames_become_messages() {
    match message_from_frame(9, &encode_stream_frame(4, &[1, 2])) {
        Some(GameNetworkEvent::Message { connection, stream, data }) => {
            assert_eq!(connection.connection_id, 9);
            assert_eq!(stream.stream_id, 4);
            assert_eq!(data, vec![1, 2]);
        }
        _ => panic!("expected a message"),
    }
    assert!(message_from_frame(9, &[4]).is_none());
}

#[test]
fn udp_connect_and_send() {
    let mut b: UdpBackend<&str> = UdpBackend::new();
    let id = match b.connect("10.0.0.1:8080") {
        GameNetworkEvent::Connected(c) => c.connection_id,
        _ => panic!("expected a connection"),
    };
    let (addr, d) = b.outgoing(conn(id), GameStream { stream_id: 2 }, &[7]).unwrap();
    assert_eq!(*addr, "10.0.0.1:8080");
    assert_eq!(d, encode_udp_datagram(id, 2, &[7]));
    assert!(b.outgoing(conn(id ^ 1), GameStream { stream_id: 2 }, &[7]).is_none());
}

#[test]
fn udp_datagrams_register_and_rebind() {
    let mut b: UdpBackend<&str> = UdpBackend::new();
    let d = encode_udp_datagram(77, 5, b"abc");
    let ev = b.on_datagram(&d, "a");
    assert_eq!(ev.len(), 2);
    assert!(matches!(ev[0], GameNetworkEvent::Connected(c) if c.connection_id == 77));
    match &ev[1] {
        GameNetworkEvent::Message { connection, stream, data } => {
            assert_eq!(connection.connection_id, 77);
            assert_eq!(stream.stream_id, 5);
            assert_eq!(data, b"abc");
        }
        _ => panic!("expected a message"),
    }
    let ev = b.on_datagram(&d, "b");
    assert_eq!(ev.len(), 1);
    assert_eq!(b.connections.get(77), Some(&"b"));
    assert!(b.on_datagram(&d[..17], "c").is_empty());
    assert_eq!(b.connections.get(77), Some(&"b"));
}

#[test]
fn tcp_peers_and_frames() {
    let mut b: TcpBackend<u8> = TcpBackend::new();
    b.register_peer(5, 1);
    let (w, f) = b.outgoing(conn(5), GameStream { stream_id: 0x0102 }, &[9]).unwrap();
    assert_eq!(*w, 1);
    assert_eq!(f, vec![1, 2, 9]);
    assert!(b.outgoing(conn(6), GameStream { stream_id: 1 }, &[9]).is_none());
    let id = match b.connected(2) {
        GameNetworkEvent::Connected(c) => c.connection_id,
        _ => panic!("expected a connection"),
    };
    assert_eq!(b.peers.get(id), Some(&2));
}

#[test]
fn quic_chooses_stream_or_datagram() {
    match quic_transmit(GameStream::new(1, GameStreamReliability::Reliable), &[1, 2, 3]) {
        QuicTransmit::Reliable { stream_id, frame } => {
            assert_eq!(stream_id, 7);
            assert_eq!(frame, encode_length_frame(&[1, 2, 3]));
        }
        _ => panic!("expected the reliable path"),
    }
    match quic_transmit(GameStream::new(1, GameStreamReliability::Unreliable), &[1, 2, 3]) {
        QuicTransmit::Datagram(d) => assert_eq!(d, vec![0, 4, 1, 2, 3]),
        _ => panic!("expected a datagram"),
    }
    let mut b: QuicBackend<&str> = QuicBackend::new();
    b.register_connection(3, "c");
    let (c, _) = b.outgoing(conn(3), GameStream { stream_id: 0 }, &[]).unwrap();
    assert_eq!(*c, "c");
    assert!(b.outgoing(conn(4), GameStream { stream_id: 0 }, &[]).is_none());
}

#[test]
fn gns_transitions() {
    assert_eq!(classify_transition(GnsConnectionState::NotConnected, GnsConnectionState::Connecting), GnsTransition::Accept);
    assert_eq!(classify_transition(GnsConnectionState::Connecting, GnsConnectionState::Connected), GnsTransition::Established);
    assert_eq!(classify_transition(GnsConnectionState::Connected, GnsConnectionState::ClosedByPeer), GnsTransition::Closed);
    assert_eq!(classify_transition(GnsConnectionState::Connecting, GnsConnectionState::ProblemDetectedLocally), GnsTransition::Closed);
    assert_eq!(classify_transition(GnsConnectionState::NotConnected, GnsConnectionState::ClosedByPeer), GnsTransition::Closed);
    assert_eq!(classify_transition(GnsConnectionState::Connecting, GnsConnectionState::FindingRoute), GnsTransition::Ignored);
    assert_eq!(classify_transition(GnsConnectionState::Connected, GnsConnectionState::Connected), GnsTransition::Ignored);
}

#[test]
fn gns_connection_lifecycle() {
    let mut b = GnsBackend::new();
    let id = match b.accept(11) {
        GameNetworkEvent::Connected(c) => c.connection_id,
        _ => panic!("expected a connection"),
    };
    assert!(b.establish(11).is_none());
    let out = b.outgoing(conn(id), GameStream::new(0, GameStreamReliability::Reliable), &[5]).unwrap();
    assert_eq!(out.handle, 11);
    assert!(out.reliable);
    assert_eq!(out.lane, 0);
    assert_eq!(out.bytes, vec![0, 3, 5]);
    let out = b.outgoing(conn(id), GameStream::new(0, GameStreamReliability::Unreliable), &[5]).unwrap();
    assert!(!out.reliable);
    assert_eq!(out.lane, 1);

    let ev = b.on_message(11, &[0, 4, 42]);
    assert_eq!(ev.len(), 2);
    assert!(matches!(ev[0], GameNetworkEvent::StreamCreated(s) if s.stream_id == 4));
    assert!(matches!(&ev[1], GameNetworkEvent::Message { connection, stream, data }
        if connection.connection_id == id && stream.stream_id == 4 && data == &vec![42u8]));
    assert_eq!(b.on_message(11, &[0, 4]).len(), 1);
    assert!(b.on_message(11, &[0]).is_empty());
    assert!(b.on_message(12, &[0, 4, 1]).is_empty());

    match b.close(11) {
        Some(GameNetworkEvent::Disconnected(c)) => assert_eq!(c.connection_id, id),
        _ => panic!("expected a disconnection"),
    }
    assert!(b.close(11).is_none());
    assert!(b.on_message(11, &[0, 4, 1]).is_empty());
    assert!(b.outgoing(conn(id), GameStream { stream_id: 0 }, &[]).is_none());
}

#[test]
fn gns_client_side_establish_registers() {
    let mut b = GnsBackend::new();
    let ev = b.establish(3);
    let id = match ev {
        Some(GameNetworkEvent::Connected(c)) => c.connection_id,
        _ => panic!("expected a connection"),
    };
    assert_eq!(b.outgoing(conn(id), GameStream { stream_id: 1 }, &[]).unwrap().handle, 3);
}

#[test]
fn reliable_streams_open_once() {
    let mut open: Vec<(u128, u16)> = Vec::new();
    assert!(reliable_send(&mut open, 1, 3));
    assert!(!reliable_send(&mut open, 1, 3));
    assert!(reliable_send(&mut open, 1, 7));
    assert!(reliable_send(&mut open, 2, 3));
    assert!(!reliable_send(&mut open, 1, 7));
    assert_eq!(open, vec![(1, 3), (1, 7), (2, 3)]);
}

#[test]
fn udp_backends_exchange_a_message() {
    let mut a: UdpBackend<&str> = UdpBackend::new();
    let mut b: UdpBackend<&str> = UdpBackend::new();
    let c = match a.connect("b") {
        GameNetworkEvent::Connected(c) => c,
        _ => panic!("no connection"),
    };
    let (to, d) = a.outgoing(c, GameStream { stream_id: 5 }, &[1, 2]).unwrap();
    assert_eq!(*to, "b");
    let events = b.on_datagram(&d, "a1");
    assert_eq!(events.len(), 2);
    assert!(matches!(events[0], GameNetworkEvent::Connected(x) if x == c));
    assert!(matches!(&events[1], GameNetworkEvent::Message { connection, stream, data }
        if *connection == c && stream.stream_id == 5 && data == &vec![1, 2]));
    let again = b.on_datagram(&d, "a2");
    assert_eq!(again.len(), 1);
    assert_eq!(b.connections.get(c.connection_id), Some(&"a2"));
}

#[test]
fn poll_reports_the_channel_state() {
    assert!(matches!(
        poll_outcome(ChannelPoll::NotStarted, "Protocol not initialized".to_string()),
        Err(GameSocketError::ProtocolError { inner_msg }) if inner_msg == "Protocol not initialized"
    ));
    assert!(matches!(
        poll_outcome(ChannelPoll::Received(GameNetworkEvent::Connected(conn(4))), String::new()),
        Ok(Some(GameNetworkEvent::Connected(c))) if c == conn(4)
    ));
    assert!(matches!(poll_outcome(ChannelPoll::Empty, String::new()), Ok(None)));
    assert!(matches!(poll_outcome(ChannelPoll::Closed, String::new()), Err(GameSocketError::ConnectionError)));
}
