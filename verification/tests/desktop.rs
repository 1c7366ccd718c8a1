use monadeck_overlay::desktop::{
    click, portal_status, still_held, ClickInputs, HeldButton, Portal, Stash, ToggleAll, BTN_LEFT, BTN_RIGHT,
};

#[test]
fn toggle_all_hides_and_brings_back_the_same_set() {
    let mut st = Stash::new();
    let (r, hide) = st.toggle(&vec![true, false, true], true);
    assert_eq!(r, ToggleAll::Hidden(3));
    assert_eq!(hide, vec![0, 2]);
    let (r, show) = st.toggle(&vec![false, false, false], false);
    assert_eq!(r, ToggleAll::Shown(3));
    assert_eq!(show, vec![0, 2]);
    assert!(st.screens.is_empty() && !st.keyboard);
    let (r, show) = st.toggle(&vec![false, false, false], false);
    assert_eq!((r, show), (ToggleAll::Nothing, vec![]));
}

#[test]
fn screens_that_went_away_are_not_brought_back() {
    let mut st = Stash::new();
    st.toggle(&vec![false, true, true], false);
    let (r, show) = st.toggle(&vec![false, false], false);
    assert_eq!((r, show), (ToggleAll::Shown(1), vec![1]));
}

use monadeck_overlay::desktop::{bgra_to_rgba, dock_links, extend_order, group_of, move_order, ordered_screens, subtree_of, undock};

fn s(v: &[&str]) -> Vec<String> {
    v.iter().map(|x| x.to_string()).collect()
}

#[test]
fn the_bar_follows_the_saved_order_unknown_screens_last() {
    let names = s(&["HDMI-A-1", "DP-1", "DP-3", "eDP-1"]);
    let order = s(&["DP-3", "DP-1"]);
    assert_eq!(ordered_screens(&names, &order), vec![2, 1, 0, 3]);
    assert_eq!(ordered_screens(&names, &vec![]), vec![0, 1, 2, 3]);
}

#[test]
fn moving_a_screen_swaps_it_with_its_neighbour() {
    let bar = s(&["a", "b", "c"]);
    assert_eq!(move_order(&bar, 0, 1), Some(s(&["b", "a", "c"])));
    assert_eq!(move_order(&bar, 2, -2), Some(s(&["c", "b", "a"])));
    assert_eq!(move_order(&bar, 0, -1), None);
    assert_eq!(move_order(&bar, 2, 1), None);
    assert_eq!(move_order(&bar, 3, -1), None);
    assert_eq!(move_order(&bar, 1, 0), None);
}

#[test]
fn new_screens_join_the_end_of_the_order() {
    let mut order = s(&["DP-1"]);
    extend_order(&mut order, &s(&["DP-3", "DP-1", "HDMI", "DP-3"]));
    assert_eq!(order, s(&["DP-1", "DP-3", "HDMI"]));
}

#[test]
fn docked_groups_follow_links_both_ways() {
    // 1 docks to 0, 2 docks to 1, 4 docks to 3; 5 is alone.
    let parents = vec![None, Some(0), Some(1), None, Some(3), None];
    // Found pass by pass, in screen order: 1 on the first pass, 0 on the next.
    assert_eq!(group_of(&parents, 2), vec![2, 1, 0]);
    assert_eq!(group_of(&parents, 0), vec![0, 1, 2]);
    assert_eq!(group_of(&parents, 3), vec![3, 4]);
    assert_eq!(group_of(&parents, 5), vec![5]);
    // A link to a screen that no longer exists links nothing.
    assert_eq!(group_of(&vec![Some(9), None], 0), vec![0]);
}

#[test]
fn captured_bgra_becomes_opaque_rgba() {
    assert_eq!(bgra_to_rgba(vec![1, 2, 3, 4, 5, 6, 7, 8, 9, 10]), vec![3, 2, 1, 255, 7, 6, 5, 255, 9, 10]);
    assert_eq!(bgra_to_rgba(vec![]), Vec::<u8>::new());
}

#[test]
fn undocking_takes_the_subtree_and_leaves_the_rest_chained() {
    // 1 and 3 are docked to 0, 2 to 1; 4 stands alone.
    let parents = vec![None, Some(0), Some(1), Some(0), None];
    let mut sub = subtree_of(&parents, 0);
    sub.sort();
    assert_eq!(sub, vec![0, 1, 2, 3]);
    let mut sub1 = subtree_of(&parents, 1);
    sub1.sort();
    assert_eq!(sub1, vec![1, 2]);
    assert_eq!(subtree_of(&parents, 4), vec![4]);
    assert_eq!(undock(&parents, 1), (vec![0, 3], Some(0)));
    assert_eq!(undock(&parents, 3), (vec![0, 1, 2], Some(0)));
    assert_eq!(undock(&parents, 0), (vec![], None));
    assert_eq!(undock(&parents, 4), (vec![], None));
    // A loop of links has no free screen: the first of the rest is the root.
    let looped = vec![Some(1), Some(0), Some(0)];
    assert_eq!(undock(&looped, 2), (vec![0, 1], Some(0)));
}

#[test]
fn a_saved_layout_docks_screens_by_name() {
    let names: Vec<String> = vec!["DP-1".into(), "HDMI-A-1".into(), "DP-2".into()];
    let links: Vec<(String, Option<(String, i8)>)> = vec![
        ("HDMI-A-1".into(), Some(("DP-1".into(), 1))),
        ("DP-2".into(), Some(("HDMI-A-1".into(), -1))),
        ("DP-1".into(), None),
        ("gone".into(), Some(("DP-1".into(), 1))),
        ("DP-1".into(), Some(("gone".into(), 1))),
        ("DP-1".into(), Some(("DP-1".into(), -1))),
        ("DP-2".into(), Some(("DP-1".into(), 1))),
    ];
    assert_eq!(dock_links(&names, &links), vec![None, Some((0, 1)), Some((0, 1))]);
    assert_eq!(dock_links(&names, &vec![]), vec![None, None, None]);
}

#[test]
fn the_status_line_follows_the_share_request() {
    assert_eq!(
        portal_status(&Portal::Idle, true, false),
        "No Wayland outputs found — the screen-share dialog will list what's available."
    );
    assert_eq!(
        portal_status(&Portal::Idle, false, false),
        "Set up screens once: approve the share dialog on your desktop (tick every monitor you want)."
    );
    assert_eq!(portal_status(&Portal::Pending, false, true), "Waiting for the screen-share dialog on your desktop…");
    assert_eq!(
        portal_status(&Portal::Ready(2), false, true),
        "2 screen(s) approved · capture: GPU (DMA-BUF) · toggle them from the bottom bar"
    );
    assert_eq!(
        portal_status(&Portal::Ready(12), false, false),
        "12 screen(s) approved · capture: CPU (SHM) · toggle them from the bottom bar"
    );
    assert_eq!(portal_status(&Portal::Failed("cancelled".into()), false, false), "Screen share failed: cancelled");
}

fn inputs(select: bool, precise: bool, secondary: bool) -> ClickInputs {
    ClickInputs { select, precise, secondary }
}

#[test]
fn a_laser_presses_one_button_and_lets_go_wherever_it_points() {
    let none = inputs(false, false, false);
    let trig = inputs(true, false, false);
    // Rising edges only, trigger first, then A (frozen), then B.
    let left = click(None, 1, trig, none).unwrap();
    assert_eq!(left, HeldButton { hand: 1, code: BTN_LEFT, frozen: false });
    assert_eq!(click(None, 1, trig, trig), None);
    assert_eq!(click(None, 0, inputs(false, true, true), none), Some(HeldButton { hand: 0, code: BTN_LEFT, frozen: true }));
    assert_eq!(click(None, 0, inputs(false, false, true), none), Some(HeldButton { hand: 0, code: BTN_RIGHT, frozen: false }));
    // Nothing else is pressed while one is held.
    assert_eq!(click(Some(left), 0, inputs(true, true, true), none), None);
    // Released when its input goes, or the hand is gone.
    assert!(still_held(left, Some(trig)));
    assert!(!still_held(left, Some(inputs(false, true, true))));
    assert!(!still_held(left, None));
    let frozen = HeldButton { hand: 0, code: BTN_LEFT, frozen: true };
    assert!(still_held(frozen, Some(inputs(false, true, false))));
    assert!(!still_held(frozen, Some(trig)));
}

#[test]
fn hiding_everything_and_toggling_again_restores_the_set() {
    let mut st = Stash::new();
    let (r, hidden) = st.toggle(&vec![false, true, true, false], true);
    assert_eq!((r, hidden.clone()), (ToggleAll::Hidden(3), vec![1, 2]));
    let (r2, back) = st.toggle(&vec![false; 4], false);
    assert_eq!((r2, back), (ToggleAll::Shown(3), hidden));
    assert_eq!(st.toggle(&vec![false; 4], false).0, ToggleAll::Nothing);
}
