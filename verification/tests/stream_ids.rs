use game_sockets::stats::{stream_index, stream_type};
use game_sockets::{GameConnection, GameStream, GameStreamReliability};

#[test]
fn reliable_stream_sets_both_flag_bits() {
    let s = GameStream::new(5, GameStreamReliability::Reliable);
    assert_eq!(s.stream_id, (5 << 2) | 0b11);
    assert!(s.is_reliable());
    assert!(s.is_ordered());
}

#[test]
fn ordered_stream_sets_ordering_bit() {
    let s = GameStream::new(5, GameStreamReliability::Ordered);
    assert_eq!(s.stream_id, 22);
    assert!(s.is_ordered());
    // the reliability check looks at both low bits
    assert!(s.is_reliable());
}

#[test]
fn unreliable_stream_has_no_flags() {
    let s = GameStream::new(5, GameStreamReliability::Unreliable);
    assert_eq!(s.stream_id, 20);
    assert!(!s.is_reliable());
    assert!(!s.is_ordered());
}

#[test]
fn stream_index_high_bits_are_shifted_out() {
    let s = GameStream::new(0x4001, GameStreamReliability::Unreliable);
    assert_eq!(s.stream_id, 4);
    let s = GameStream::new(u16::MAX, GameStreamReliability::Reliable);
    assert_eq!(s.stream_id, u16::MAX);
}

#[test]
fn raw_stream_ids_from_u16() {
    let one: GameStream = 1u16.into();
    let two: GameStream = GameStream::from(2u16);
    assert_eq!(one.stream_id, 1);
    assert!(one.is_reliable());
    assert!(!one.is_ordered());
    assert!(two.is_reliable());
    assert!(two.is_ordered());
}

#[test]
fn classification_recovers_reliability_and_index() {
    for index in [0u16, 1, 7, 300, 0x3fff] {
        for r in [
            GameStreamReliability::Reliable,
            GameStreamReliability::Unreliable,
            GameStreamReliability::Ordered,
        ] {
            let s = GameStream::new(index, r);
            assert_eq!(stream_type(s.stream_id), r);
            assert_eq!(stream_index(s.stream_id), index);
        }
    }
}

#[test]
fn classification_of_raw_ids() {
    assert_eq!(stream_type(1), GameStreamReliability::Unreliable);
    assert_eq!(stream_type(2), GameStreamReliability::Ordered);
    assert_eq!(stream_type(3), GameStreamReliability::Reliable);
    assert_eq!(stream_type(8), GameStreamReliability::Unreliable);
    assert_eq!(stream_index(11), 2);
}

#[test]
fn connection_from_u128() {
    let c: GameConnection = 42u128.into();
    assert_eq!(c.connection_id, 42);
    assert_eq!(GameConnection::default().connection_id, 0);
}
