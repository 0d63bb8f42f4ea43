//! The replay window.

use velokvm::AntiReplayWindow;

#[test]
fn test_anti_replay_sliding_window() {
    let mut window = AntiReplayWindow::new();

    // in order
    assert!(window.validate_and_update(1));
    assert!(window.validate_and_update(2));
    assert!(window.validate_and_update(5));

    // out of order, within the window
    assert!(window.validate_and_update(3));
    assert!(window.validate_and_update(4));

    // replayed
    assert!(!window.validate_and_update(2));
    assert!(!window.validate_and_update(5));
    assert!(!window.validate_and_update(1));

    // a leap past the window
    assert!(window.validate_and_update(100));

    // now too old
    assert!(!window.validate_and_update(30));
    assert!(!window.validate_and_update(35));

    // still within the window, once
    assert!(window.validate_and_update(90));
    assert!(!window.validate_and_update(90));
}

#[test]
fn zero_never_passes() {
    let mut window = AntiReplayWindow::new();
    assert!(!window.validate_and_update(0));
    assert!(window.validate_and_update(1));
    assert!(!window.validate_and_update(0));
    assert_eq!(window.last_seq(), 1);
}

#[test]
fn window_is_sixty_four_numbers_wide() {
    let mut window = AntiReplayWindow::new();
    assert!(window.validate_and_update(100));
    assert!(!window.validate_and_update(36));
    assert!(window.validate_and_update(37));
    assert!(!window.validate_and_update(37));
    assert_eq!(window.last_seq(), 100);
}

#[test]
fn advancing_by_less_than_the_window_keeps_what_was_seen() {
    let mut window = AntiReplayWindow::default();
    assert!(window.validate_and_update(10));
    assert!(window.validate_and_update(73));
    assert!(!window.validate_and_update(10));
    assert!(window.validate_and_update(11));
    assert!(window.validate_and_update(74));
    assert!(!window.validate_and_update(10));
    assert_eq!(window.last_seq(), 74);
}

#[test]
fn the_highest_number_is_let_through_once() {
    let mut window = AntiReplayWindow::new();
    assert!(window.validate_and_update(u64::MAX));
    assert!(!window.validate_and_update(u64::MAX));
    assert!(window.validate_and_update(u64::MAX - 63));
    assert!(!window.validate_and_update(u64::MAX - 64));
    assert_eq!(window.last_seq(), u64::MAX);
}

#[test]
fn no_number_passes_twice_in_any_order() {
    let mut window = AntiReplayWindow::new();
    let mut passed: Vec<u64> = Vec::new();
    let mut x: u64 = 12345;
    for _ in 0..5000 {
        x = x.wrapping_mul(6364136223846793005).wrapping_add(1442695040888963407);
        let seq = (x >> 33) % 300;
        if window.validate_and_update(seq) {
            assert!(!passed.contains(&seq));
            passed.push(seq);
        }
    }
    assert!(passed.len() > 10);
}

#[test]
fn a_refused_number_leaves_the_window_as_it_was() {
    let mut window = AntiReplayWindow::new();
    assert_eq!(window, AntiReplayWindow::default());
    assert!(!window.validate_and_update(0));
    assert_eq!(window, AntiReplayWindow::new());
    assert!(window.validate_and_update(70));
    let before = window;
    for seq in [0, 1, 6, 70] {
        assert!(!window.validate_and_update(seq));
        assert_eq!(window, before);
    }
}
