use squared_squares::coordinator::{Message, Tally};
use squared_squares::squares::Config;

#[test]
fn a_new_tally_is_all_zero() {
    let t = Tally::new(5);
    assert_eq!(t.units_per_first, vec![0; 5]);
    assert_eq!(t.threads_per_first, vec![0; 5]);
    assert_eq!(t.threads_done_per_first, vec![0; 5]);
    assert_eq!(t.squares_placed_per_first, vec![0; 5]);
    assert_eq!(t.time_spent_per_first, vec![0; 5]);
    assert_eq!(t.total_squares, 0);
    assert_eq!(t.running_threads, 0);
}

#[test]
fn a_corner_starts_once_and_finishes_when_its_work_is_done() {
    let mut t = Tally::new(10);
    t.unit_received(8);
    t.unit_received(8);
    assert_eq!(t.units_per_first[8], 2);
    assert!(t.unit_started(8));
    assert!(!t.unit_started(8));
    assert_eq!(t.units_per_first[8], 0);
    assert_eq!(t.threads_per_first[8], 2);
    assert_eq!(t.running_threads, 2);
    assert!(!t.thread_ended(8, 100, 7));
    assert!(t.thread_ended(8, 50, 3));
    assert_eq!(t.total_squares, 150);
    assert_eq!(t.squares_placed_per_first[8], 150);
    assert_eq!(t.time_spent_per_first[8], 10);
    assert_eq!(t.threads_done_per_first[8], 2);
    assert_eq!(t.running_threads, 0);
    // a corner that already ended does not start again
    t.unit_received(8);
    assert!(!t.unit_started(8));
}

#[test]
fn a_corner_with_waiting_units_is_not_finished() {
    let mut t = Tally::new(10);
    t.unit_received(9);
    t.unit_received(9);
    assert!(t.unit_started(9));
    assert!(!t.thread_ended(9, 1, 1));
    assert_eq!(t.units_per_first[9], 1);
}

#[test]
fn messages_carry_units_and_deaths() {
    let m = Message::WorkUnit((Config::new(true, 20, [0; 151], [0; 151]), 1));
    match m {
        Message::WorkUnit((c, pid)) => {
            assert_eq!(pid, 1);
            assert_eq!(c.size, 20);
        }
        Message::ThreadDeath(..) => panic!("not a death"),
    }
    let d = Message::ThreadDeath(3, 4, 5);
    assert!(matches!(d, Message::ThreadDeath(3, 4, 5)));
}

#[test]
fn first_corner_range_runs_from_eight_to_half_the_width() {
    assert_eq!(squared_squares::coordinator::first_corner_range(150), (8, 76));
    assert_eq!(squared_squares::coordinator::first_corner_range(31), (8, 17));
}
