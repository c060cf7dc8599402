use acars_router::generics::{get_our_standard_reconnect_strategy, reconnect_options};
use acars_router::reconnect::ReconnectSchedule;

const PREFIX: [u64; 21] = [
    5, 5, 5, 5, 5, 5, 5, 5, 5, 5, 5, 5, 5, 5, 10, 20, 30, 40, 50, 60, 60,
];

#[test]
fn schedule_hands_out_the_literal_prefix() {
    let mut schedule = get_our_standard_reconnect_strategy();
    let mut waits = Vec::new();
    for _ in 0..21 {
        waits.push(schedule.next());
    }
    assert_eq!(waits, PREFIX.to_vec());
}

#[test]
fn schedule_stays_at_one_minute_forever() {
    let mut schedule = get_our_standard_reconnect_strategy();
    for _ in 0..21 {
        schedule.next();
    }
    for _ in 0..10_000 {
        assert_eq!(schedule.next(), 60);
    }
    assert_eq!(schedule.position(), 19);
}

#[test]
fn take_gives_the_same_waits_as_repeated_next() {
    let mut one = ReconnectSchedule::new();
    let mut other = ReconnectSchedule::new();
    let taken = one.take(40);
    assert_eq!(taken.len(), 40);
    assert_eq!(&taken[..21], &PREFIX[..]);
    for wait in taken {
        assert_eq!(other.next(), wait);
    }
    assert_eq!(one.position(), other.position());
}

#[test]
fn take_continues_where_the_cursor_stands() {
    let mut schedule = ReconnectSchedule::new();
    assert_eq!(schedule.take(13), vec![5; 13]);
    assert_eq!(schedule.position(), 13);
    assert_eq!(schedule.take(3), vec![5, 10, 20]);
    assert_eq!(schedule.take(0), Vec::<u64>::new());
    assert_eq!(schedule.position(), 16);
    assert_eq!(schedule.take(5), vec![30, 40, 50, 60, 60]);
}

#[test]
fn sum_of_the_first_twenty_waits() {
    let mut schedule = ReconnectSchedule::new();
    let total: u64 = schedule.take(20).iter().sum();
    assert_eq!(total, 14 * 5 + 10 + 20 + 30 + 40 + 50 + 60);
}

#[test]
fn every_round_of_reconnecting_starts_a_fresh_schedule() {
    let options = reconnect_options();
    assert!(!options.exit_if_first_connect_fails);
    let mut first = options.retries_to_attempt();
    for _ in 0..30 {
        first.next();
    }
    let mut second = options.retries_to_attempt();
    assert_eq!(second.position(), 0);
    assert_eq!(second.next(), 5);
    assert_eq!(first.next(), 60);
}
