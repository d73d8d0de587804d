use std::time::Duration;
use std::time::SystemTime;
use tetris::config::INITIAL_TICK_TIME_MS;
use tetris::tetris::time_manager::TimeManager;
use tetris::tetris::time_manager::QUICKENING_COEF;
use tetris::tetris::time_manager::SPEED_CAP;

#[test]
fn constants_of_the_clock() {
    assert_eq!(INITIAL_TICK_TIME_MS, 1000);
    assert_eq!(QUICKENING_COEF, 20);
    assert_eq!(SPEED_CAP, 20);
}

#[test]
fn new_clock_has_the_initial_tick_and_grace() {
    let manager = TimeManager::new();
    assert_eq!(manager.tick_time, 1000);
    assert_eq!(manager.sticky_timeout, 1000);
    assert_eq!(manager.offset_tick, 0);
}

#[test]
fn timeout_after_is_what_is_left_of_the_tick() {
    let manager = TimeManager::new();
    assert_eq!(manager.timeout_after(0), 1000);
    assert_eq!(manager.timeout_after(1), 999);
    assert_eq!(manager.timeout_after(300), 700);
    assert_eq!(manager.timeout_after(999), 1);
}

#[test]
fn timeout_after_is_never_negative() {
    let manager = TimeManager::new();
    assert_eq!(manager.timeout_after(1000), 0);
    assert_eq!(manager.timeout_after(1001), 0);
    assert_eq!(manager.timeout_after(5000), 0);
    assert_eq!(manager.timeout_after(u128::MAX), 0);
}

#[test]
fn timeout_after_counts_the_offset() {
    let mut manager = TimeManager::new();
    manager.tick_time = 980;
    manager.offset_tick = 960;
    assert_eq!(manager.timeout_after(0), 20);
    assert_eq!(manager.timeout_after(10), 10);
    assert_eq!(manager.timeout_after(19), 1);
    assert_eq!(manager.timeout_after(20), 0);
    assert_eq!(manager.timeout_after(25), 0);
    manager.offset_tick = 980;
    assert_eq!(manager.timeout_after(0), 0);
    manager.offset_tick = usize::MAX;
    assert_eq!(manager.timeout_after(0), 0);
    assert_eq!(manager.timeout_after(u128::MAX), 0);
}

#[test]
fn get_timeout_is_at_most_a_tick() {
    let manager = TimeManager::new();
    assert!(manager.get_timeout() <= 1000);
}

#[test]
fn get_timeout_is_over_long_after_the_reset() {
    let mut manager = TimeManager::new();
    manager.last = SystemTime::UNIX_EPOCH;
    assert_eq!(manager.get_timeout(), 0);
}

#[test]
fn get_timeout_is_a_full_tick_where_the_clock_went_back() {
    let mut manager = TimeManager::new();
    manager.last = SystemTime::now() + Duration::from_secs(3600);
    assert_eq!(manager.get_timeout(), 1000);
    manager.offset_tick = 250;
    assert_eq!(manager.get_timeout(), 750);
}

#[test]
fn update_tick_speed_takes_twenty_per_row() {
    let mut manager = TimeManager::new();
    manager.update_tick_speed(1);
    assert_eq!(manager.tick_time, 980);
    manager.update_tick_speed(4);
    assert_eq!(manager.tick_time, 900);
    manager.update_tick_speed(0);
    assert_eq!(manager.tick_time, 900);
    manager.update_tick_speed(2);
    assert_eq!(manager.tick_time, 860);
    assert_eq!(manager.sticky_timeout, 1000);
    assert_eq!(manager.offset_tick, 0);
}

#[test]
fn update_tick_speed_stops_at_the_cap() {
    let mut manager = TimeManager::new();
    manager.tick_time = 100;
    manager.update_tick_speed(4);
    assert_eq!(manager.tick_time, 20);

    manager.tick_time = 99;
    manager.update_tick_speed(4);
    assert_eq!(manager.tick_time, 20);

    manager.tick_time = 101;
    manager.update_tick_speed(4);
    assert_eq!(manager.tick_time, 21);

    manager.tick_time = 20;
    manager.update_tick_speed(1);
    assert_eq!(manager.tick_time, 20);
    manager.update_tick_speed(0);
    assert_eq!(manager.tick_time, 20);
}

#[test]
fn update_tick_speed_takes_any_number_of_rows() {
    let mut manager = TimeManager::new();
    manager.update_tick_speed(usize::MAX);
    assert_eq!(manager.tick_time, 20);
    manager.tick_time = usize::MAX;
    manager.update_tick_speed(usize::MAX / 20);
    assert_eq!(manager.tick_time, 20);
    manager.tick_time = usize::MAX;
    manager.update_tick_speed(usize::MAX / 20 - 1);
    assert_eq!(manager.tick_time, usize::MAX - 20 * (usize::MAX / 20 - 1));
}

#[test]
fn clears_of_four_rows_drive_the_tick_down_to_the_cap() {
    let mut manager = TimeManager::new();
    let mut before = manager.tick_time;
    for round in 1..=40 {
        manager.update_tick_speed(4);
        assert!(manager.tick_time >= 20);
        assert!(manager.tick_time <= before);
        if round <= 12 {
            assert_eq!(manager.tick_time, 1000 - 80 * round);
        } else {
            assert_eq!(manager.tick_time, 20);
        }
        before = manager.tick_time;
    }
    assert_eq!(manager.tick_time, 20);
}

#[test]
fn should_finish_turn_once_the_grace_is_no_more_than_a_tick() {
    let mut manager = TimeManager::new();
    assert!(manager.should_finish_turn());
    manager.tick_time = 999;
    assert!(!manager.should_finish_turn());
    manager.sticky_timeout = 999;
    assert!(manager.should_finish_turn());
    manager.sticky_timeout = 0;
    assert!(manager.should_finish_turn());
}

#[test]
fn advance_stuck_takes_a_tick_off_the_grace() {
    let mut manager = TimeManager::new();
    manager.tick_time = 400;
    manager.advance_stuck();
    assert_eq!(manager.sticky_timeout, 600);
    assert_eq!(manager.offset_tick, 0);
    assert_eq!(manager.tick_time, 400);
    assert!(!manager.should_finish_turn());
    manager.advance_stuck();
    assert_eq!(manager.sticky_timeout, 200);
    assert_eq!(manager.offset_tick, 200);
    assert!(manager.should_finish_turn());
    assert_eq!(manager.timeout_after(0), 200);
}

#[test]
fn advance_stuck_cuts_the_next_wait_down() {
    let mut manager = TimeManager::new();
    manager.update_tick_speed(1);
    assert!(!manager.should_finish_turn());
    manager.advance_stuck();
    assert_eq!(manager.sticky_timeout, 20);
    assert_eq!(manager.offset_tick, 960);
    assert_eq!(manager.timeout_after(0), 20);
    assert!(manager.should_finish_turn());
}

#[test]
fn advance_stuck_with_no_grace_left() {
    let mut manager = TimeManager::new();
    manager.advance_stuck();
    assert_eq!(manager.sticky_timeout, 0);
    assert_eq!(manager.offset_tick, 1000);
    assert_eq!(manager.timeout_after(0), 0);
}

#[test]
fn tick_resets_grace_and_offset() {
    let mut manager = TimeManager::new();
    manager.update_tick_speed(3);
    manager.advance_stuck();
    assert_eq!(manager.sticky_timeout, 60);
    assert_eq!(manager.offset_tick, 880);
    manager.tick();
    assert_eq!(manager.tick_time, 940);
    assert_eq!(manager.sticky_timeout, 1000);
    assert_eq!(manager.offset_tick, 0);
    assert!(manager.get_timeout() <= 940);
}
