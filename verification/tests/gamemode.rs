use monadeck_overlay::gamemode::{digital_edges, profile_for_game, profile_index, HandPointer, Role, Routing, ARM_TIMEOUT_MS, LEAVE_GRACE_MS};

#[test]
fn watch_arms_the_pointer_and_leaving_the_screen_drops_it() {
    let t = 100_000u64;
    let mut g = Routing::new();
    g.enabled = true; // no real pad in tests
    let on = [true, false];
    let none = [false, false];
    // Pointing at a screen alone never makes a pointer.
    assert_eq!(g.route(on, none, false, t).0, [Role::Pad, Role::Pad]);
    // The watch arms it; it survives until the hand has reached a screen
    // and left it again.
    g.toggle_pointer(0, t);
    assert_eq!(g.route(none, none, false, t + 10).0[0], Role::Pointer);
    assert_eq!(g.route(on, none, false, t + 20).0[0], Role::Pointer);
    assert_eq!(g.route(none, none, false, t + 30).0[0], Role::Pointer);
    g.left.off_screen_since = Some(t + 40 - 2_000);
    assert_eq!(g.route(none, none, false, t + 40).0[0], Role::Pad);
    // Armed but never reaching a screen: gives up after the timeout.
    g.toggle_pointer(1, t + 40);
    g.right.armed_at = Some(t + 40 - 10_000);
    assert_eq!(g.route(none, none, false, t + 40).0[1], Role::Pad);
}

#[test]
fn off_the_screens_for_the_grace_time_keeps_the_pointer() {
    let mut h = HandPointer::new();
    h.toggle(0);
    h.step(true, 100);
    assert!(h.on && h.armed_at.is_none());
    h.step(false, 200);
    assert_eq!(h.off_screen_since, Some(200));
    h.step(false, 200 + LEAVE_GRACE_MS);
    assert!(h.on);
    h.step(false, 201 + LEAVE_GRACE_MS);
    assert!(!h.on);
}

#[test]
fn an_armed_pointer_waits_for_the_timeout() {
    let mut h = HandPointer::new();
    h.toggle(1_000);
    h.step(false, 1_000 + ARM_TIMEOUT_MS);
    assert!(h.on);
    h.step(false, 1_001 + ARM_TIMEOUT_MS);
    assert!(!h.on && h.armed_at.is_none());
}

#[test]
fn the_watch_and_the_dashboard_take_precedence() {
    let mut g = Routing::new();
    assert_eq!(g.route([false; 2], [false; 2], false, 0).0, [Role::Pointer, Role::Pointer]);
    g.set_enabled(true);
    assert_eq!(g.route([false; 2], [true, false], false, 5).0, [Role::Watch, Role::Pad]);
    g.toggle_pointer(1, 5);
    assert!(g.right.on);
    assert_eq!(g.route([false; 2], [false; 2], true, 6).0, [Role::Pointer, Role::Pointer]);
    assert!(!g.right.on);
    g.toggle_pointer(7, 7);
    assert!(!g.left.on && !g.right.on);
}

#[test]
fn profiles_are_found_by_name_and_by_game() {
    let names: Vec<String> = vec!["Xbox".into(), "Keyboard".into(), "Racing".into(), "Keyboard".into()];
    assert_eq!(profile_index(&names, Some("Keyboard")), 1);
    assert_eq!(profile_index(&names, Some("keyboard")), 0);
    assert_eq!(profile_index(&names, None), 0);
    let games: Vec<Option<String>> = vec![None, Some("   ".into()), Some(" Forza ".into()), Some("forza horizon".into())];
    assert_eq!(profile_for_game(&games, "FORZA HORIZON 5"), Some(2));
    assert_eq!(profile_for_game(&games, "Half-Life: Alyx"), None);
    assert_eq!(profile_for_game(&games, ""), None);
}

#[test]
fn digital_targets_go_up_then_down_on_their_edges() {
    assert_eq!(digital_edges(&vec![1, 2, 3], &vec![3, 4, 1]), vec![(2, false), (4, true)]);
    assert_eq!(digital_edges(&vec![], &vec![7, 8]), vec![(7, true), (8, true)]);
    assert_eq!(digital_edges(&vec![7, 8], &vec![]), vec![(7, false), (8, false)]);
    assert_eq!(digital_edges(&vec![5], &vec![5]), vec![]);
}

#[test]
fn pausing_releases_every_held_key_once() {
    let mut g = Routing::new();
    g.set_enabled(true);
    g.key_edge(30, true);
    g.key_edge(31, true);
    g.key_edge(30, true);
    g.key_edge(32, true);
    g.key_edge(31, false);
    assert_eq!(g.keys_down, vec![30, 32]);
    assert_eq!(g.route([false; 2], [false; 2], false, 1).1, Vec::<u16>::new());
    assert_eq!(g.route([false; 2], [false; 2], true, 2).1, vec![30, 32]);
    assert!(g.keys_down.is_empty());
    assert_eq!(g.route([false; 2], [false; 2], true, 3).1, Vec::<u16>::new());
    // Off: nothing is released by routing; stale keys are taken instead.
    g.key_edge(40, true);
    assert_eq!(g.take_stale_keys(true), Vec::<u16>::new());
    g.set_enabled(false);
    assert_eq!(g.route([false; 2], [false; 2], true, 4).1, Vec::<u16>::new());
    assert_eq!(g.take_stale_keys(true), vec![40]);
    assert!(g.keys_down.is_empty());
}

#[test]
fn keys_press_and_release_on_edges() {
    // The keyboard/mouse profile turns a forward stick into key 17 (W):
    // pressed on the first frame, let go on the next.
    let mut g = Routing::new();
    g.set_enabled(true);
    let mut log: Vec<(u16, bool)> = Vec::new();
    let mut held: Vec<u32> = Vec::new();
    for pressed in [vec![17u32], vec![]] {
        let roles = g.route([false; 2], [false; 2], false, 0).0;
        assert_eq!(roles, [Role::Pad, Role::Pad]);
        for (t, down) in digital_edges(&held, &pressed) {
            log.push((t as u16, down));
            g.key_edge(t as u16, down);
        }
        held = pressed;
        if log.len() == 1 {
            assert_eq!(log, vec![(17, true)]);
            assert_eq!(g.keys_down, vec![17]);
        }
    }
    assert_eq!(log, vec![(17, true), (17, false)]);
    assert!(g.keys_down.is_empty());
}
