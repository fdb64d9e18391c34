use layer_hud::status::{effective_online, mark_offline, mark_online, toggle_forced_connection};

#[test]
fn override_forces_the_shown_connection() {
    assert!(!effective_online(0, true));
    assert!(effective_online(1, false));
    assert!(effective_online(2, true));
    assert!(!effective_online(2, false));
    assert_eq!(toggle_forced_connection(2, true), (0, false));
    assert_eq!(toggle_forced_connection(2, false), (1, true));
    assert_eq!(toggle_forced_connection(1, false), (0, false));
}

#[test]
fn transitions_are_announced_once() {
    let mut online = false;
    assert!(mark_online(&mut online, 2));
    assert!(online);
    assert!(!mark_online(&mut online, 2));
    let a = mark_offline(&mut online, 2);
    assert!(a.changed && a.announce);
    let a = mark_offline(&mut online, 2);
    assert!(!a.changed && !a.announce);
    // Forced states suppress the matching announcements.
    assert!(!mark_online(&mut online, 0));
    let a = mark_offline(&mut online, 1);
    assert!(a.changed && !a.announce);
}
