use yeet::animation::{effective_delay, Sequencer, DEFAULT_DELAY_MS};

#[test]
fn zero_delay_means_default() {
    assert_eq!(DEFAULT_DELAY_MS, 100);
    assert_eq!(effective_delay(0), 100);
    assert_eq!(effective_delay(50), 50);
    assert_eq!(effective_delay(200), 200);
}

#[test]
fn three_frame_timing() {
    let mut s = Sequencer::new(vec![0, 50, 200], 1000);
    assert!(s.playing);
    assert_eq!(s.current_delay(), 100);
    assert!(!s.tick(1099));
    assert_eq!(s.current_frame, 0);
    assert!(s.tick(1100));
    assert_eq!(s.current_frame, 1);
    assert_eq!(s.current_delay(), 50);
    assert!(!s.tick(1149));
    assert!(s.tick(1150));
    assert_eq!(s.current_frame, 2);
    assert_eq!(s.current_delay(), 200);
    assert!(!s.tick(1349));
    assert!(s.tick(1350));
    assert_eq!(s.current_frame, 0);
}

#[test]
fn single_frame_never_advances() {
    let mut s = Sequencer::new(vec![10], 0);
    assert!(!s.playing);
    assert!(!s.tick(1_000_000));
    assert_eq!(s.current_frame, 0);
}

#[test]
fn pause_and_manual_steps() {
    let mut s = Sequencer::new(vec![10, 10, 10], 0);
    s.toggle_playing();
    assert!(!s.playing);
    assert!(!s.tick(500));
    s.previous(600);
    assert_eq!(s.current_frame, 2);
    assert_eq!(s.last_advance_ms, 600);
    s.next(700);
    assert_eq!(s.current_frame, 0);
    assert!(!s.playing);
    s.toggle_playing();
    assert!(!s.tick(705));
    assert!(s.tick(710));
    assert_eq!(s.current_frame, 1);
}

#[test]
fn clock_going_backwards_does_not_advance() {
    let mut s = Sequencer::new(vec![10, 10], 500);
    assert!(!s.tick(100));
    assert_eq!(s.current_frame, 0);
}
