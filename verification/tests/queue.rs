use acars_router::queue::{BoundedQueue, SendError};

#[test]
fn queue_is_first_in_first_out() {
    let mut queue: BoundedQueue<u32> = BoundedQueue::new(4);
    assert!(queue.is_empty());
    assert_eq!(queue.try_send(1), Ok(()));
    assert_eq!(queue.try_send(2), Ok(()));
    assert_eq!(queue.try_send(3), Ok(()));
    assert_eq!(queue.len(), 3);
    assert_eq!(queue.recv(), Some(1));
    assert_eq!(queue.recv(), Some(2));
    assert_eq!(queue.recv(), Some(3));
    assert_eq!(queue.recv(), None);
}

#[test]
fn full_queue_turns_the_offer_away_and_keeps_its_items() {
    let mut queue: BoundedQueue<u32> = BoundedQueue::new(2);
    assert_eq!(queue.try_send(10), Ok(()));
    assert_eq!(queue.try_send(11), Ok(()));
    assert!(queue.is_full());
    assert_eq!(queue.try_send(12), Err(SendError::Full));
    assert_eq!(queue.len(), 2);
    assert_eq!(queue.capacity(), 2);
    assert_eq!(queue.recv(), Some(10));
    assert!(!queue.is_full());
    assert_eq!(queue.try_send(13), Ok(()));
    assert_eq!(queue.recv(), Some(11));
    assert_eq!(queue.recv(), Some(13));
}

#[test]
fn queue_of_capacity_zero_is_always_full() {
    let mut queue: BoundedQueue<u32> = BoundedQueue::new(0);
    assert_eq!(queue.try_send(1), Err(SendError::Full));
    assert!(queue.is_empty());
}

#[test]
fn closed_queue_turns_offers_away_but_can_be_drained() {
    let mut queue: BoundedQueue<u32> = BoundedQueue::new(3);
    assert_eq!(queue.try_send(1), Ok(()));
    assert!(!queue.is_closed());
    queue.close();
    assert!(queue.is_closed());
    assert!(!queue.is_finished());
    assert_eq!(queue.try_send(2), Err(SendError::Closed));
    assert_eq!(queue.recv(), Some(1));
    assert!(queue.is_finished());
    assert_eq!(queue.recv(), None);
}

#[test]
fn closed_and_full_queue_reports_closed() {
    let mut queue: BoundedQueue<u32> = BoundedQueue::new(1);
    assert_eq!(queue.try_send(1), Ok(()));
    queue.close();
    assert_eq!(queue.try_send(2), Err(SendError::Closed));
}
