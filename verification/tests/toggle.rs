use layer_hud::toggle::ToggleTracker;

const MS: u64 = 1_000_000;

#[test]
fn triple_tap_toggles_and_toggles_back() {
    let seq = vec![51u8, 51, 51];
    let mut t = ToggleTracker::new();
    assert!(!t.record_press(51, 0, &seq, false));
    assert!(!t.record_press(51, 200 * MS, &seq, false));
    assert!(t.record_press(51, 400 * MS, &seq, false));
    assert!(t.buffer.is_empty());
    assert!(!t.record_press(51, 600 * MS, &seq, false));
    assert!(!t.record_press(51, 800 * MS, &seq, false));
    assert!(t.record_press(51, 1000 * MS, &seq, false));
}

#[test]
fn bounces_slow_presses_and_recording_do_not_count() {
    let seq = vec![1u8, 2];
    let mut t = ToggleTracker::new();
    assert!(!t.record_press(1, 0, &seq, false));
    // A bounce of the same key within 160 ms is ignored.
    assert!(!t.record_press(1, 100 * MS, &seq, false));
    assert_eq!(t.buffer, vec![1]);
    // More than a second later the sequence starts over.
    assert!(!t.record_press(2, 1_200 * MS, &seq, false));
    assert_eq!(t.buffer, vec![2]);
    assert!(!t.record_press(1, 1_400 * MS, &seq, false));
    assert!(t.record_press(2, 1_600 * MS, &seq, false));
    // While a new sequence is recorded, nothing counts.
    let before = t.clone();
    assert!(!t.record_press(1, 2_000 * MS, &seq, true));
    assert_eq!(t, before);
    // Without a sequence nothing counts.
    assert!(!t.record_press(1, 3_000 * MS, &Vec::new(), false));
    assert_eq!(t, before);
}

#[test]
fn exactly_one_second_apart_still_counts() {
    let seq = vec![3u8, 4];
    let mut t = ToggleTracker::new();
    assert!(!t.record_press(3, 0, &seq, false));
    assert!(t.record_press(4, 1_000 * MS, &seq, false));
    let mut t = ToggleTracker::new();
    assert!(!t.record_press(3, 0, &seq, false));
    assert!(!t.record_press(4, 1_000 * MS + 1, &seq, false));
}
