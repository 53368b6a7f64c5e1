use rubiks_race::lobby::{Arrival, Pool};
use rubiks_race::session::GameEvent;
use rubiks_race::types::ClientMessage;

#[test]
fn two_arrivals_fill_the_pool_and_a_third_starts_a_new_one() {
    let mut pool = Pool::new();
    let first = pool.arrive().unwrap();
    let second = pool.arrive().unwrap();
    assert_eq!(first, Arrival::Waiting { id: 1 });
    assert_eq!(second, Arrival::Full { id: 0 });
    assert_eq!(pool.arrive(), None);
    // the full pool's slots go to the session; the next arrival meets a new pool
    let mut next = Pool::new();
    assert_eq!(next.arrive(), Some(Arrival::Waiting { id: 1 }));
}

#[test]
fn disconnect_while_waiting_frees_the_slot() {
    let mut pool = Pool::new();
    assert_eq!(pool.arrive(), Some(Arrival::Waiting { id: 1 }));
    assert!(pool.handle_event(GameEvent::Disconnected { id: 1 }));
    assert_eq!(pool.free_ids, vec![0, 1]);
    assert_eq!(pool.taken, [false, false]);
    // a second report of the same loss frees nothing
    assert!(!pool.handle_event(GameEvent::Disconnected { id: 1 }));
    assert_eq!(pool.free_ids, vec![0, 1]);
    assert_eq!(pool.arrive(), Some(Arrival::Waiting { id: 1 }));
}

#[test]
fn unexpected_message_while_waiting_frees_the_slot() {
    let mut pool = Pool::new();
    pool.arrive();
    let click = GameEvent::Message { id: 1, msg: ClientMessage::Click { pos: (0, 0) } };
    assert!(pool.handle_event(click));
    assert_eq!(pool.taken, [false, false]);
}

#[test]
fn ping_while_waiting_keeps_the_slot() {
    let mut pool = Pool::new();
    pool.arrive();
    assert!(!pool.handle_event(GameEvent::Message { id: 1, msg: ClientMessage::Ping }));
    assert_eq!(pool.taken, [false, true]);
    assert_eq!(pool.free_ids, vec![0]);
}

#[test]
fn release_of_free_slot_changes_nothing() {
    let mut pool = Pool::new();
    assert!(!pool.release(0));
    assert_eq!(pool.free_ids, vec![0, 1]);
}
