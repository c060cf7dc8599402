use acars_router::message::Message;
use acars_router::queue::{BoundedQueue, SendError};
use acars_router::tcp_serve_server::{PeerAddr, PeerFailure, Shared, PEER_QUEUE_CAPACITY};

fn peer(n: u16) -> PeerAddr {
    PeerAddr { ip: 0xffff_7f00_0001, port: 40000 + n }
}

fn numbered(n: u32) -> Message {
    Message::parse(&format!("{{\"seq\":{}}}", n)).unwrap()
}

#[test]
fn fifty_peers_each_receive_a_hundred_messages_in_order() {
    let mut registry = Shared::new();
    for n in 0..50 {
        assert!(registry.insert(peer(n), BoundedQueue::new(PEER_QUEUE_CAPACITY)).is_none());
    }
    assert_eq!(registry.len(), 50);
    let mut received: Vec<Vec<Message>> = vec![Vec::new(); 50];
    for m in 0..100 {
        assert!(registry.broadcast(&numbered(m)).is_empty());
        for n in 0..50u16 {
            while let Some(message) = registry.take_for(peer(n)) {
                received[n as usize].push(message);
            }
        }
    }
    let expected: Vec<Message> = (0..100).map(numbered).collect();
    for n in 0..50 {
        assert_eq!(received[n], expected);
    }
    for n in 0..50 {
        assert!(registry.remove(peer(n)).is_some());
    }
    assert_eq!(registry.len(), 0);
    assert!(registry.is_empty());
}

#[test]
fn peers_that_join_late_get_only_later_messages() {
    let mut registry = Shared::new();
    registry.insert(peer(1), BoundedQueue::new(8));
    registry.broadcast(&numbered(1));
    registry.insert(peer(2), BoundedQueue::new(8));
    registry.broadcast(&numbered(2));
    let early = registry.remove(peer(1)).unwrap();
    registry.broadcast(&numbered(3));
    assert_eq!(early.len(), 2);
    assert_eq!(registry.take_for(peer(2)), Some(numbered(2)));
    assert_eq!(registry.take_for(peer(2)), Some(numbered(3)));
    assert_eq!(registry.take_for(peer(2)), None);
    assert_eq!(registry.take_for(peer(1)), None);
    assert!(!registry.contains(peer(1)));
    assert!(registry.contains(peer(2)));
}

#[test]
fn saturated_or_closed_peer_is_reported_and_the_others_are_served() {
    let mut registry = Shared::new();
    let mut closed = BoundedQueue::new(4);
    closed.close();
    registry.insert(peer(1), BoundedQueue::new(1));
    registry.insert(peer(2), closed);
    registry.insert(peer(3), BoundedQueue::new(4));
    assert_eq!(
        registry.broadcast(&numbered(1)),
        vec![PeerFailure { peer: peer(2), error: SendError::Closed }]
    );
    let mut failures = registry.broadcast(&numbered(2));
    failures.sort_by_key(|f| f.peer.port);
    assert_eq!(
        failures,
        vec![
            PeerFailure { peer: peer(1), error: SendError::Full },
            PeerFailure { peer: peer(2), error: SendError::Closed },
        ]
    );
    assert_eq!(registry.take_for(peer(1)), Some(numbered(1)));
    assert_eq!(registry.take_for(peer(1)), None);
    assert_eq!(registry.take_for(peer(3)), Some(numbered(1)));
    assert_eq!(registry.take_for(peer(3)), Some(numbered(2)));
}

#[test]
fn insert_for_a_known_address_replaces_the_queue() {
    let mut registry = Shared::new();
    registry.insert(peer(7), BoundedQueue::new(2));
    registry.broadcast(&numbered(1));
    let previous = registry.insert(peer(7), BoundedQueue::new(2)).unwrap();
    assert_eq!(previous.len(), 1);
    assert_eq!(registry.len(), 1);
    assert_eq!(registry.take_for(peer(7)), None);
}

#[test]
fn remove_of_an_unknown_peer_changes_nothing() {
    let mut registry = Shared::new();
    registry.insert(peer(1), BoundedQueue::new(2));
    assert!(registry.remove(peer(2)).is_none());
    assert!(registry.remove(PeerAddr { ip: 1, port: 40001 }).is_none());
    assert_eq!(registry.len(), 1);
    assert!(registry.contains(peer(1)));
}

#[test]
fn broadcast_to_nobody_reports_nothing() {
    let mut registry = Shared::new();
    assert!(registry.is_empty());
    assert!(registry.broadcast(&numbered(1)).is_empty());
    assert_eq!(registry.len(), 0);
}
